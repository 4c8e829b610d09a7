//! The chunked content store: at most one raw and one formatted text blob,
//! read back in bounded byte-offset chunks. Offsets address the UTF-8
//! encoding; a chunk that would split a multi-byte character fails cleanly.

use vstd::prelude::*;
use vstd::string::StrSliceExecFns;
use vstd::string::StringExecFns;
use vstd::utf8::decode_utf8;
use vstd::utf8::encode_utf8;
use vstd::utf8::valid_utf8;
use crate::codec::string_from_utf8;
use crate::errors::ErrorKind;
use crate::errors::FormatError;
use crate::text::eq_str;

verus! {

/// The process-wide holder of the loaded and the last formatted text.
/// Callers serialize access around it; the invariant that storing raw
/// content clears the formatted slot is part of `store_raw_content`'s
/// contract.
pub struct ContentStore {
    pub raw_content: Option<String>,
    pub formatted_content: Option<String>,
}

impl ContentStore {
    /// An empty store.
    pub fn new() -> (r: ContentStore)
        ensures
            r.raw_content is None,
            r.formatted_content is None,
    {
        ContentStore { raw_content: None, formatted_content: None }
    }
}

/// One bounded piece of stored content.
#[derive(Debug)]
pub struct ChunkResponse {
    pub chunk: String,
    pub has_more: bool,
    pub total_length: usize,
    pub next_start: usize,
}

/// A read-only snapshot of the store.
#[derive(Debug)]
pub struct InfoResponse {
    pub has_raw: bool,
    pub has_formatted: bool,
    pub raw_length: usize,
    pub formatted_length: usize,
}

/// Replaces the raw content wholesale and clears the formatted slot.
pub fn store_raw_content(store: &mut ContentStore, content: String)
    ensures
        final(store).raw_content == Some(content),
        final(store).formatted_content is None,
{
    store.raw_content = Some(content);
    store.formatted_content = None;
}

/// Empties both slots unconditionally.
pub fn clear_content(store: &mut ContentStore)
    ensures
        final(store).raw_content is None,
        final(store).formatted_content is None,
{
    store.raw_content = None;
    store.formatted_content = None;
}

/// What `get_content_chunk` returns for stored text `content` and a request
/// at byte offset `start` for `size` bytes.
pub open spec fn chunk_ensures(
    content: Seq<char>,
    start: usize,
    size: usize,
    r: Result<ChunkResponse, FormatError>,
) -> bool {
    let bytes = encode_utf8(content);
    let total = bytes.len() as int;
    if start >= total {
        r matches Ok(c) && c.chunk@ == Seq::<char>::empty() && c.has_more == false
            && c.total_length as int == total && c.next_start as int == total
    } else {
        let end = if start + size <= total {
            start + size
        } else {
            total
        };
        let sub = bytes.subrange(start as int, end);
        if valid_utf8(sub) {
            r matches Ok(c) && c.chunk@ == decode_utf8(sub) && c.has_more == (end < total)
                && c.total_length as int == total && c.next_start as int == end
        } else {
            r matches Err(e) && e.kind == ErrorKind::InvalidInput && e.message@
                == "Chunk does not fall on character boundaries"@
        }
    }
}

fn chunk_of_string(s: &String, start: usize, chunk_size: usize) -> (r: Result<
    ChunkResponse,
    FormatError,
>)
    ensures
        chunk_ensures(s@, start, chunk_size, r),
{
    let bytes = s.as_str().as_bytes_vec();
    let total = bytes.len();
    if start >= total {
        return Ok(
            ChunkResponse {
                chunk: String::new(),
                has_more: false,
                total_length: total,
                next_start: total,
            },
        );
    }
    let end = if chunk_size <= total - start {
        start + chunk_size
    } else {
        total
    };
    let mut sub: Vec<u8> = Vec::new();
    let mut i = start;
    while i < end
        invariant
            start <= i <= end <= bytes@.len(),
            sub@ =~= bytes@.subrange(start as int, i as int),
        decreases end - i,
    {
        sub.push(bytes[i]);
        i += 1;
    }
    assert(sub@ =~= bytes@.subrange(start as int, end as int));
    match string_from_utf8(sub) {
        Ok(cs) => Ok(
            ChunkResponse {
                chunk: cs,
                has_more: end < total,
                total_length: total,
                next_start: end,
            },
        ),
        Err(_) => Err(
            FormatError::new(
                ErrorKind::InvalidInput,
                String::from_str("Chunk does not fall on character boundaries"),
            ),
        ),
    }
}

/// Returns the requested byte-offset chunk of the raw or formatted slot.
/// An unknown slot name or an empty slot fails; a request past the end
/// yields an empty chunk with `has_more` false.
pub fn get_content_chunk(
    store: &ContentStore,
    content_type: &str,
    start: usize,
    chunk_size: usize,
) -> (r: Result<ChunkResponse, FormatError>)
    ensures
        content_type@ != "raw"@ && content_type@ != "formatted"@ ==> (r matches Err(e) && e.kind
            == ErrorKind::InvalidInput && e.message@ == "Invalid content type"@),
        content_type@ == "raw"@ && store.raw_content is None ==> (r matches Err(e) && e.kind
            == ErrorKind::StateError && e.message@ == "No content stored"@),
        content_type@ == "formatted"@ && store.formatted_content is None ==> (r matches Err(e)
            && e.kind == ErrorKind::StateError && e.message@ == "No content stored"@),
        content_type@ == "raw"@ ==> (store.raw_content matches Some(s) ==> chunk_ensures(
            s@,
            start,
            chunk_size,
            r,
        )),
        content_type@ == "formatted"@ ==> (store.formatted_content matches Some(s)
            ==> chunk_ensures(s@, start, chunk_size, r)),
{
    proof {
        reveal_strlit("raw");
        reveal_strlit("formatted");
        assert("raw"@.len() != "formatted"@.len());
    }
    let is_raw = eq_str(content_type, "raw");
    let is_formatted = eq_str(content_type, "formatted");
    let content = if is_raw {
        &store.raw_content
    } else if is_formatted {
        &store.formatted_content
    } else {
        return Err(FormatError::new(ErrorKind::InvalidInput, String::from_str("Invalid content type")));
    };
    match content {
        Some(s) => chunk_of_string(s, start, chunk_size),
        None => Err(FormatError::new(ErrorKind::StateError, String::from_str("No content stored"))),
    }
}

/// A read-only snapshot: which slots are filled and their byte lengths.
pub fn get_content_info(store: &ContentStore) -> (r: InfoResponse)
    ensures
        r.has_raw == (store.raw_content is Some),
        r.has_formatted == (store.formatted_content is Some),
        store.raw_content matches Some(s) ==> r.raw_length as int == encode_utf8(s@).len(),
        store.raw_content is None ==> r.raw_length == 0,
        store.formatted_content matches Some(s) ==> r.formatted_length as int == encode_utf8(
            s@,
        ).len(),
        store.formatted_content is None ==> r.formatted_length == 0,
{
    let raw_length = match &store.raw_content {
        Some(s) => s.as_str().as_bytes_vec().len(),
        None => 0,
    };
    let formatted_length = match &store.formatted_content {
        Some(s) => s.as_str().as_bytes_vec().len(),
        None => 0,
    };
    InfoResponse {
        has_raw: store.raw_content.is_some(),
        has_formatted: store.formatted_content.is_some(),
        raw_length,
        formatted_length,
    }
}

/// The fixed large-file threshold of the ingestion interface, in bytes.
pub const LARGE_FILE_THRESHOLD: u64 = 100 * 1024 * 1024;

/// Whether a file of `file_size` bytes is ingested in streaming mode.
pub fn use_streaming(file_size: u64) -> (r: bool)
    ensures
        r == (file_size > LARGE_FILE_THRESHOLD),
{
    file_size > LARGE_FILE_THRESHOLD
}

} // verus!
