//! Offline downloads: where a track's files live, what they are called, and the queue's
//! cancellation counter. The network and the disk are the app's; the names are decided here.
use vstd::prelude::*;

use crate::text::{
    chars_of, concat_str, contains_str, parse_u64, parse_u64_chars, skip_ws, skip_ws_back,
    split_char, split_spans, str_contains, trim,
};

verus! {

/// Unix `Path::join`: a name that starts with `/` replaces the base; otherwise the two are joined
/// with one `/`, unless the base is empty or already ends in one.
pub open spec fn join_path(base: Seq<char>, name: Seq<char>) -> Seq<char> {
    if name.len() > 0 && name[0] == '/' {
        name
    } else if base.len() == 0 || base.last() == '/' {
        base + name
    } else {
        base + seq!['/'] + name
    }
}

/// The extension a download is saved under: from the container, not the codec.
pub open spec fn audio_ext(mime: Seq<char>) -> Seq<char> {
    if contains_str(mime, "webm"@) || contains_str(mime, "opus"@) {
        "webm"@
    } else if contains_str(mime, "mp4"@) || contains_str(mime, "m4a"@) || contains_str(
        mime,
        "mp4a"@,
    ) {
        "m4a"@
    } else {
        "bin"@
    }
}

fn join(base: &str, name: &str) -> (r: String)
    ensures
        r@ == join_path(base@, name@),
{
    let starts_abs = name.unicode_len() > 0 && name.get_char(0) == '/';
    if starts_abs {
        proof {
            reveal_strlit("");
            assert(""@ + name@ == name@);
        }
        return concat_str("", name);
    }
    let n = base.unicode_len();
    if n == 0 || base.get_char(n - 1) == '/' {
        concat_str(base, name)
    } else {
        let with_sep = concat_str(base, "/");
        proof {
            reveal_strlit("/");
        }
        concat_str(with_sep.as_str(), name)
    }
}

/// Where the files live: `<app data>/downloads`.
pub fn dir(data_dir: &str) -> (r: String)
    ensures
        r@ == join_path(data_dir@, "downloads"@),
{
    join(data_dir, "downloads")
}

/// The extension for a stream's MIME type.
pub fn audio_extension(mime: &str) -> (r: &'static str)
    ensures
        r@ == audio_ext(mime@),
{
    if str_contains(mime, "webm") || str_contains(mime, "opus") {
        "webm"
    } else if str_contains(mime, "mp4") || str_contains(mime, "m4a") || str_contains(mime, "mp4a") {
        "m4a"
    } else {
        "bin"
    }
}

/// A downloaded track's audio file: `<dir>/<videoId>.<ext>`, the extension following the
/// container so the folder stays browsable.
pub fn audio_path(dir: &str, video_id: &str, mime: &str) -> (r: String)
    ensures
        r@ == join_path(dir@, video_id@ + "."@ + audio_ext(mime@)),
{
    let ext = audio_extension(mime);
    let stem = concat_str(video_id, ".");
    let file = concat_str(stem.as_str(), ext);
    join(dir, file.as_str())
}

/// A downloaded track's artwork: `<dir>/<videoId>.jpg`, beside the audio.
pub fn art_path(dir: &str, video_id: &str) -> (r: String)
    ensures
        r@ == join_path(dir@, video_id@ + ".jpg"@),
{
    let file = concat_str(video_id, ".jpg");
    join(dir, file.as_str())
}

/// The sum of a list of byte counts.
pub open spec fn sum_bytes(s: Seq<i64>) -> int
    decreases s.len(),
{
    if s.len() == 0 {
        0
    } else {
        sum_bytes(s.drop_last()) + s.last()
    }
}

/// Every running total of `s` fits in an `i64`, as summing it without overflow needs.
pub open spec fn sums_fit(s: Seq<i64>) -> bool {
    forall|k: int|
        0 <= k <= s.len() ==> i64::MIN <= #[trigger] sum_bytes(s.take(k)) <= i64::MAX
}

/// Total bytes on disk, for the storage row in settings.
pub fn total_bytes(bytes: &[i64]) -> (r: i64)
    requires
        sums_fit(bytes@),
    ensures
        r == sum_bytes(bytes@),
{
    let mut t: i64 = 0;
    let mut i: usize = 0;
    assert(bytes@.take(0) == Seq::<i64>::empty());
    while i < bytes.len()
        invariant
            i <= bytes@.len(),
            sums_fit(bytes@),
            t == sum_bytes(bytes@.take(i as int)),
        decreases bytes.len() - i,
    {
        proof {
            let n = bytes@.take(i + 1);
            assert(n.drop_last() == bytes@.take(i as int));
            assert(i64::MIN <= sum_bytes(n) <= i64::MAX);
        }
        t = t + bytes[i];
        i = i + 1;
    }
    assert(bytes@.take(bytes@.len() as int) == bytes@);
    t
}

/// Stop whatever is downloading: bump the queue's generation, so every check against the batch's
/// own generation fails and the queue unwinds.
pub fn cancel(generation: &mut u64)
    ensures
        *final(generation) == crate::sleep::next_generation(*old(generation)),
{
    *generation = generation.wrapping_add(1);
}

/// A download batch started under `batch` may carry on.
pub fn batch_is_current(generation: u64, batch: u64) -> (r: bool)
    ensures
        r == (generation == batch),
{
    generation == batch
}

/// A download's row: where its file is and the format it was saved at.
pub struct Download {
    pub path: String,
    pub audio_mime: Option<String>,
    pub audio_bitrate: Option<i64>,
}

/// True when the row exists and its file (`on_disk`: the row's path is a file) is still there.
/// Both, because a user who cleared the folder by hand would otherwise get a library full of
/// tracks that cannot play.
pub fn is_downloaded(row: Option<&Download>, on_disk: bool) -> (r: bool)
    ensures
        r == (row is Some && on_disk),
{
    row.is_some() && on_disk
}

/// The file for a downloaded track, with the codec and bitrate it was saved at, when the row
/// exists and its file (`on_disk`) is really there.
pub fn playable(row: Option<Download>, on_disk: bool) -> (r: Option<(String, Option<String>, Option<i64>)>)
    ensures
        match row {
            Some(d) => if on_disk {
                r matches Some((p, m, b)) && p@ == d.path@ && m == d.audio_mime && b == d.audio_bitrate
            } else {
                r is None
            },
            None => r is None,
        },
{
    match row {
        Some(d) => if on_disk {
            Some((d.path, d.audio_mime, d.audio_bitrate))
        } else {
            None
        },
        None => None,
    }
}

pub open spec fn opt_view(s: Option<&str>) -> Option<Seq<char>> {
    match s {
        Some(x) => Some(x@),
        None => None,
    }
}

/// The title a download is saved under: the row's, which is what the user saw when they asked for
/// it (a stream's title is sometimes the raw upload name); the stream's when the row has none; the
/// video id as a last resort.
pub open spec fn title_spec(row: Seq<char>, stream: Option<Seq<char>>, video_id: Seq<char>) -> Seq<char> {
    if row.len() > 0 {
        row
    } else {
        match stream {
            Some(t) => t,
            None => video_id,
        }
    }
}

/// See [`title_spec`].
pub fn saved_title(row: &str, stream: Option<&str>, video_id: &str) -> (r: String)
    ensures
        r@ == title_spec(row@, opt_view(stream), video_id@),
{
    if row.unicode_len() > 0 {
        row.to_owned()
    } else {
        match stream {
            Some(t) => t.to_owned(),
            None => video_id.to_owned(),
        }
    }
}

/// The artists a download is saved under: the row's, else the stream's, else none.
pub fn saved_artists(row: &str, stream: Option<&str>) -> (r: String)
    ensures
        r@ == (if row@.len() > 0 {
            row@
        } else {
            match stream {
                Some(a) => a@,
                None => Seq::<char>::empty(),
            }
        }),
{
    if row.unicode_len() > 0 {
        row.to_owned()
    } else {
        match stream {
            Some(a) => a.to_owned(),
            None => String::new(),
        }
    }
}

/// Whether the artwork is fetched to sit beside the audio: only from a web address. Best effort,
/// after the audio: a missing cover is a worse-looking row, not a broken one.
pub fn keeps_art(thumbnail: Option<&str>) -> (r: bool)
    ensures
        r == (thumbnail matches Some(t) && t@.len() >= 4 && t@.subrange(0, 4) == "http"@),
{
    match thumbnail {
        Some(t) => {
            proof {
                reveal_strlit("http");
            }
            if t.unicode_len() < 4 {
                return false;
            }
            let r = t.get_char(0) == 'h' && t.get_char(1) == 't' && t.get_char(2) == 't'
                && t.get_char(3) == 'p';
            proof {
                if r {
                    assert(t@.subrange(0, 4) =~= "http"@);
                } else {
                    assert(t@.subrange(0, 4) != "http"@) by {
                        if t@.subrange(0, 4) == "http"@ {
                            assert(t@.subrange(0, 4)[0] == 'h');
                            assert(t@.subrange(0, 4)[1] == 't');
                            assert(t@.subrange(0, 4)[2] == 't');
                            assert(t@.subrange(0, 4)[3] == 'p');
                        }
                    }
                }
            }
            r
        },
        None => false,
    }
}

/// The total size in a `Content-Range` header (`bytes 0-10485759/4187353`): what follows its
/// last `/`, trimmed, as a number.
pub open spec fn range_total(h: Seq<char>) -> Option<u64> {
    parse_u64(trim(split_char(h, '/').last()))
}

/// `Content-Range: bytes 0-10485759/4187353` gives 4187353.
pub fn content_range_total(header: &str) -> (r: Option<u64>)
    ensures
        r == range_total(header@),
{
    let v = chars_of(header);
    let n = v.len();
    assert(v@.subrange(0, n as int) == v@);
    let parts = split_spans(v.as_slice(), 0, n, '/');
    proof {
        crate::text::lemma_split_nonempty(v@, '/');
    }
    let (a, b) = parts[parts.len() - 1];
    let lo = skip_ws(v.as_slice(), a, b);
    let hi = skip_ws_back(v.as_slice(), lo, b);
    parse_u64_chars(v.as_slice(), lo, hi)
}

/// How much of a stream is asked for at a time: big enough that the per-request overhead
/// disappears, small enough that a failure costs one chunk.
pub const CHUNK: u64 = 10485760;

/// What the queue does with its next item.
#[derive(Debug, Clone, Copy, PartialEq, Eq, Structural)]
pub enum Next {
    /// The batch was cancelled: stop the queue.
    Stop,
    /// A local file, or a track already downloaded: skip it, not refuse it.
    Skip,
    Download,
}

/// The queue's decision for an item, given the queue's generation now and the batch's, whether the
/// item is a local file and whether it is already downloaded.
pub fn next_item(generation: u64, batch: u64, is_local: bool, downloaded: bool) -> (r: Next)
    ensures
        generation != batch ==> r == Next::Stop,
        generation == batch && (is_local || downloaded) ==> r == Next::Skip,
        generation == batch && !is_local && !downloaded ==> r == Next::Download,
{
    if generation != batch {
        Next::Stop
    } else if is_local || downloaded {
        Next::Skip
    } else {
        Next::Download
    }
}

/// A download in progress: the bytes written so far and the size the server announced (0 while
/// unknown).
pub struct Transfer {
    pub received: u64,
    pub total: u64,
}

impl Transfer {
    /// Nothing received yet.
    pub fn new() -> (r: Self)
        ensures
            r.received == 0 && r.total == 0,
    {
        Transfer { received: 0, total: 0 }
    }

    /// The byte range to ask for next (inclusive): the next chunk, from where the file ends.
    pub fn next_range(&self) -> (r: (u64, u64))
        requires
            self.received + CHUNK <= u64::MAX,
        ensures
            r.0 == self.received,
            r.1 == self.received + CHUNK - 1,
    {
        (self.received, self.received + CHUNK - 1)
    }

    /// An answer came, announcing `size` (from `Content-Range`, else `Content-Length`): the size
    /// is taken from the first answer that says it.
    pub fn answered(&mut self, size: Option<u64>)
        ensures
            final(self).received == old(self).received,
            final(self).total == (if old(self).total == 0 {
                match size {
                    Some(s) => s,
                    None => 0,
                }
            } else {
                old(self).total
            }),
    {
        if self.total == 0 {
            self.total = match size {
                Some(s) => s,
                None => 0,
            };
        }
    }

    /// `n` more bytes written.
    pub fn got(&mut self, n: u64)
        requires
            old(self).received + n <= u64::MAX,
        ensures
            final(self).received == old(self).received + n,
            final(self).total == old(self).total,
    {
        self.received = self.received + n;
    }

    /// Whether the download is complete after a chunk that brought `this_chunk` bytes: when the
    /// server ignored the range (one pass, whole file), when all the announced size is in, or when
    /// a chunk came back short, which is what the last one does even with no size announced.
    pub fn finished(&self, ranged: bool, this_chunk: u64) -> (r: bool)
        ensures
            r == (!ranged || (self.total > 0 && self.received >= self.total) || this_chunk < CHUNK),
    {
        !ranged || (self.total > 0 && self.received >= self.total) || this_chunk < CHUNK
    }
}

/// Audio and artwork never share a file name: they have one stem and differ in extension.
pub proof fn law_art_never_clashes_with_audio(video_id: Seq<char>, mime: Seq<char>)
    ensures
        video_id + "."@ + audio_ext(mime) != video_id + ".jpg"@,
{
    reveal_strlit(".");
    reveal_strlit(".jpg");
    reveal_strlit("webm");
    reveal_strlit("m4a");
    reveal_strlit("bin");
    let a = video_id + "."@ + audio_ext(mime);
    let b = video_id + ".jpg"@;
    let n = video_id.len() as int;
    assert(a[n + 1] != b[n + 1]);
}

/// After a cancel, the batch that was running is no longer current.
pub proof fn law_cancel_stops_the_batch(generation: u64)
    ensures
        crate::sleep::next_generation(generation) != generation,
{
}

} // verus!
