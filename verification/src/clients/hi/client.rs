//! The computations of the Halo Infinite client that sit between its requests:
//! per-origin keys for request pacing, film chunk locations and decompression.
use super::models::{FilmChunk, FilmChunkData, FilmManifest};
use crate::text::{
    chars_of, push_char, push_chars, string_from_chars, trim_end, trim_start, trimmed_end,
    trimmed_start, CharClass,
};
use vstd::prelude::*;

verus! {

/// Index of the first `://` at or after `i`, or `-1`.
pub open spec fn scheme_separator(s: Seq<char>, i: int) -> int
    decreases s.len() - i,
{
    if i < 0 || i + 3 > s.len() {
        -1
    } else if s[i] == ':' && s[i + 1] == '/' && s[i + 2] == '/' {
        i
    } else {
        scheme_separator(s, i + 1)
    }
}

/// Index of the first `/` at or after `i`, or the length.
pub open spec fn first_slash(s: Seq<char>, i: int) -> int
    decreases s.len() - i,
{
    if i < 0 || i >= s.len() {
        s.len() as int
    } else if s[i] == '/' {
        i
    } else {
        first_slash(s, i + 1)
    }
}

/// The `scheme://host[:port]` prefix of a URL: everything up to the first `/` after
/// the first `://`; the whole text when it has no `://`.
pub open spec fn origin_spec(url: Seq<char>) -> Seq<char> {
    if scheme_separator(url, 0) < 0 {
        url
    } else {
        url.subrange(0, first_slash(url, scheme_separator(url, 0) + 3))
    }
}

proof fn lemma_scheme_separator(s: Seq<char>, i: int)
    requires
        0 <= i,
    ensures
        scheme_separator(s, i) == -1 || (i <= scheme_separator(s, i) && scheme_separator(s, i) + 3 <= s.len()),
    decreases s.len() - i,
{
    if i + 3 <= s.len() && !(s[i] == ':' && s[i + 1] == '/' && s[i + 2] == '/') {
        lemma_scheme_separator(s, i + 1);
    }
}

proof fn lemma_first_slash(s: Seq<char>, i: int)
    requires
        0 <= i <= s.len(),
    ensures
        i <= first_slash(s, i) <= s.len(),
    decreases s.len() - i,
{
    if i < s.len() && s[i] != '/' {
        lemma_first_slash(s, i + 1);
    }
}

/// What the client does with a response: hand it back, or, when the service refuses
/// the credentials (HTTP 401) and the request has not been sent again yet, drop the
/// cached credentials, fetch fresh ones and send the request once more.
#[derive(Debug, Clone, Copy, PartialEq, Eq, Structural)]
pub enum ResponseStep {
    Done,
    RenewAndRetry,
}

/// The step after a response with HTTP status `status`; `retried` tells whether the
/// request was already sent again.
pub fn response_step(status: u16, retried: bool) -> (r: ResponseStep)
    ensures
        r == (if status == 401 && !retried {
            ResponseStep::RenewAndRetry
        } else {
            ResponseStep::Done
        }),
{
    if status == 401 && !retried {
        ResponseStep::RenewAndRetry
    } else {
        ResponseStep::Done
    }
}

/// The `scheme://host[:port]` prefix of a URL, which keys per-origin request pacing.
pub fn origin_of(url: &str) -> (r: String)
    ensures
        r@ == origin_spec(url@),
{
    let s = chars_of(url);
    let n = s.len();
    let mut i: usize = 0;
    proof {
        lemma_scheme_separator(s@, 0);
    }
    while n - i >= 3 && !(s[i] == ':' && s[i + 1] == '/' && s[i + 2] == '/')
        invariant
            n == s@.len(),
            s@ == url@,
            i <= n,
            scheme_separator(s@, 0) == scheme_separator(s@, i as int),
        decreases n - i,
    {
        i += 1;
    }
    if n - i < 3 {
        return string_from_chars(&s);
    }
    let mut j: usize = i + 3;
    proof {
        lemma_first_slash(s@, j as int);
    }
    while j < n && s[j] != '/'
        invariant
            n == s@.len(),
            i + 3 <= j <= n,
            first_slash(s@, i + 3) == first_slash(s@, j as int),
        decreases n - j,
    {
        j += 1;
    }
    let prefix = crate::text::copy_range(&s, 0, j);
    string_from_chars(&prefix)
}

/// Base URL and path of a film chunk download: the storage prefix without trailing
/// slashes, and the chunk path with exactly one leading slash.
pub fn film_chunk_location(film: &FilmManifest, chunk: &FilmChunk) -> (r: (String, String))
    ensures
        r.0@ == trim_end(film.blob_storage_path_prefix@, CharClass::Slash),
        r.1@ == seq!['/'] + trim_start(chunk.file_relative_path@, CharClass::Slash),
{
    let base = trimmed_end(&chars_of(film.blob_storage_path_prefix.as_str()), CharClass::Slash);
    let rest = trimmed_start(&chars_of(chunk.file_relative_path.as_str()), CharClass::Slash);
    let mut path = String::new();
    push_char(&mut path, '/');
    push_chars(&mut path, &rest);
    (string_from_chars(&base), path)
}

/// The bytes that the complete zlib stream at the start of `compressed` decompresses to
/// (anything after the stream's end is not read), or `None` when the bytes do not start
/// with a complete, valid stream.
pub uninterp spec fn zlib_inflate(compressed: Seq<u8>) -> Option<Seq<u8>>;

/// `flate2::read::ZlibDecoder` read to the end. The contract claims that decoding
/// succeeds exactly when the named decompression has a result, and then yields it;
/// the error message is left unsaid.
#[verifier::external_body]
fn zlib_decompress(compressed: &[u8]) -> (r: Result<Vec<u8>, String>)
    ensures
        r is Ok <==> zlib_inflate(compressed@) is Some,
        r matches Ok(v) ==> zlib_inflate(compressed@) == Some(v@),
{
    let mut decoder = flate2::read::ZlibDecoder::new(compressed);
    let mut data = Vec::new();
    match std::io::Read::read_to_end(&mut decoder, &mut data) {
        Ok(_) => Ok(data),
        Err(error) => Err(error.to_string()),
    }
}

/// A film chunk that could not be decompressed.
#[derive(Debug, Clone, PartialEq, Eq)]
pub struct FilmDecompressionError {
    pub message: String,
}

/// A chunk's manifest fields, its path as text.
pub open spec fn chunk_view(c: FilmChunk) -> (i32, i64, i64, i64, Seq<char>, i32) {
    (c.index, c.start_time_offset_ms, c.duration_ms, c.size, c.file_relative_path@, c.chunk_type)
}

/// A field-by-field copy of a chunk's manifest entry.
pub fn copy_chunk(chunk: &FilmChunk) -> (r: FilmChunk)
    ensures
        chunk_view(r) == chunk_view(*chunk),
{
    FilmChunk {
        index: chunk.index,
        start_time_offset_ms: chunk.start_time_offset_ms,
        duration_ms: chunk.duration_ms,
        size: chunk.size,
        file_relative_path: chunk.file_relative_path.clone(),
        chunk_type: chunk.chunk_type,
    }
}

/// The film chunk a decompression result gives: the chunk's manifest entry with the
/// decompressed bytes, or the decompression error.
pub fn film_chunk_data(chunk: &FilmChunk, inflated: Result<Vec<u8>, String>) -> (r: Result<FilmChunkData, FilmDecompressionError>)
    ensures
        match inflated {
            Ok(v) => r matches Ok(d) && d.data@ == v@ && chunk_view(d.metadata) == chunk_view(*chunk),
            Err(m) => r matches Err(e) && e.message@ == m@,
        },
{
    match inflated {
        Ok(data) => Ok(FilmChunkData { metadata: copy_chunk(chunk), data }),
        Err(message) => Err(FilmDecompressionError { message }),
    }
}

/// Decompresses a downloaded film chunk.
pub fn decompress_film_chunk(chunk: &FilmChunk, compressed: &[u8]) -> (r: Result<FilmChunkData, FilmDecompressionError>)
    ensures
        match zlib_inflate(compressed@) {
            Some(d) => r matches Ok(x) && x.data@ == d && chunk_view(x.metadata) == chunk_view(*chunk),
            None => r is Err,
        },
{
    film_chunk_data(chunk, zlib_decompress(compressed))
}

} // verus!
