use formatcore::dispatch::format_text;
use formatcore::errors::ErrorKind;
use formatcore::store::clear_content;
use formatcore::store::get_content_chunk;
use formatcore::store::get_content_info;
use formatcore::store::store_raw_content;
use formatcore::store::use_streaming;
use formatcore::store::ContentStore;
use formatcore::store::LARGE_FILE_THRESHOLD;

#[test]
fn chunk_boundary_past_end() {
    let mut store = ContentStore::new();
    store_raw_content(&mut store, String::from("0123456789"));
    let r = get_content_chunk(&store, "raw", 10, 5).unwrap();
    assert_eq!(r.chunk, "");
    assert!(!r.has_more);
    assert_eq!(r.total_length, 10);
    assert_eq!(r.next_start, 10);
}

#[test]
fn chunk_boundary_tail() {
    let mut store = ContentStore::new();
    store_raw_content(&mut store, String::from("0123456789"));
    let r = get_content_chunk(&store, "raw", 8, 5).unwrap();
    assert_eq!(r.chunk, "89");
    assert!(!r.has_more);
    assert_eq!(r.next_start, 10);
}

#[test]
fn chunk_paging() {
    let mut store = ContentStore::new();
    store_raw_content(&mut store, String::from("abcdefghij"));
    let first = get_content_chunk(&store, "raw", 0, 4).unwrap();
    assert_eq!(first.chunk, "abcd");
    assert!(first.has_more);
    assert_eq!(first.next_start, 4);
    let second = get_content_chunk(&store, "raw", first.next_start, 4).unwrap();
    assert_eq!(second.chunk, "efgh");
    assert!(second.has_more);
}

#[test]
fn chunk_split_multibyte_rejected() {
    let mut store = ContentStore::new();
    // 'é' is two bytes; offset 1 lands inside it.
    store_raw_content(&mut store, String::from("é"));
    let err = get_content_chunk(&store, "raw", 1, 1).unwrap_err();
    assert_eq!(err.kind, ErrorKind::InvalidInput);
    assert_eq!(err.message, "Chunk does not fall on character boundaries");
}

#[test]
fn chunk_invalid_type_rejected() {
    let store = ContentStore::new();
    let err = get_content_chunk(&store, "other", 0, 1).unwrap_err();
    assert_eq!(err.kind, ErrorKind::InvalidInput);
    assert_eq!(err.message, "Invalid content type");
}

#[test]
fn chunk_empty_slot_rejected() {
    let store = ContentStore::new();
    let err = get_content_chunk(&store, "formatted", 0, 1).unwrap_err();
    assert_eq!(err.kind, ErrorKind::StateError);
    assert_eq!(err.message, "No content stored");
}

#[test]
fn info_reports_byte_lengths() {
    let mut store = ContentStore::new();
    store_raw_content(&mut store, String::from("héllo"));
    let info = get_content_info(&store);
    assert!(info.has_raw);
    assert!(!info.has_formatted);
    assert_eq!(info.raw_length, 6);
    assert_eq!(info.formatted_length, 0);
}

#[test]
fn store_invalidation() {
    let mut store = ContentStore::new();
    let _ = format_text("{\"a\":1}", "json", &mut store);
    store_raw_content(&mut store, String::from("raw data"));
    let info = get_content_info(&store);
    assert!(!info.has_formatted);
    let out = format_text("[1]", "json", &mut store).unwrap();
    let info2 = get_content_info(&store);
    assert!(info2.has_formatted);
    let chunk = get_content_chunk(&store, "formatted", 0, 100).unwrap();
    assert_eq!(chunk.chunk, out);
}

#[test]
fn clear_empties_both_slots() {
    let mut store = ContentStore::new();
    store_raw_content(&mut store, String::from("x"));
    let _ = format_text("{}", "json", &mut store);
    clear_content(&mut store);
    let info = get_content_info(&store);
    assert!(!info.has_raw);
    assert!(!info.has_formatted);
    assert_eq!(info.raw_length, 0);
}

#[test]
fn dispatch_unknown_format() {
    let mut store = ContentStore::new();
    let err = format_text("x", "yaml", &mut store).unwrap_err();
    assert_eq!(err, "Unknown format type");
}

#[test]
fn dispatch_routes_each_format() {
    let mut store = ContentStore::new();
    assert_eq!(format_text("{\"a\":1}", "json", &mut store).unwrap(), "{\n  \"a\": 1\n}");
    assert_eq!(format_text("<a></a>", "xml", &mut store).unwrap(), "<a>\n</a>");
    assert_eq!(format_text("hi", "encode", &mut store).unwrap(), "aGk=");
    assert_eq!(format_text("aGk=", "decode", &mut store).unwrap(), "hi");
    assert!(format_text("x.y", "jwt", &mut store).unwrap_err().contains("Expected 3 parts"));
    assert!(format_text("7", "json-summary", &mut store).unwrap().contains("Statistics:"));
}

#[test]
fn dispatch_codec_leaves_store_alone() {
    let mut store = ContentStore::new();
    let _ = format_text("abc", "encode", &mut store).unwrap();
    let info = get_content_info(&store);
    assert!(!info.has_formatted);
}

#[test]
fn dispatch_empty_text_uses_raw_content() {
    let mut store = ContentStore::new();
    store_raw_content(&mut store, String::from("{\"k\":true}"));
    let out = format_text("", "json", &mut store).unwrap();
    assert_eq!(out, "{\n  \"k\": true\n}");
}

#[test]
fn dispatch_empty_text_without_raw_fails_downstream() {
    let mut store = ContentStore::new();
    let err = format_text("", "xml", &mut store).unwrap_err();
    assert_eq!(err, "Empty XML input");
    // Codec operations succeed on the empty fallback.
    assert_eq!(format_text("", "encode", &mut store).unwrap(), "");
    assert_eq!(format_text("", "decode", &mut store).unwrap(), "");
}

#[test]
fn streaming_threshold() {
    assert_eq!(LARGE_FILE_THRESHOLD, 100 * 1024 * 1024);
    assert!(!use_streaming(LARGE_FILE_THRESHOLD));
    assert!(use_streaming(LARGE_FILE_THRESHOLD + 1));
    assert!(!use_streaming(0));
}
