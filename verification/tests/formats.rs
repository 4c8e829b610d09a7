use base64::engine::general_purpose::URL_SAFE_NO_PAD;
use base64::Engine;
use formatcore::codec::decode_base64;
use formatcore::codec::encode_base64;
use formatcore::errors::ErrorKind;
use formatcore::json::format_json;
use formatcore::jwt::decode_jwt_part;
use formatcore::jwt::parse_jwt;
use formatcore::summary::calculate_json_stats;
use formatcore::summary::summarize_json;
use formatcore::xml::format_xml;
use base64::engine::general_purpose::STANDARD;
use formatcore::json::JsonNode;

#[test]
fn format_json_pretty_prints() {
    let out = format_json("{\"a\":1}").unwrap();
    assert_eq!(out, "{\n  \"a\": 1\n}");
}

#[test]
fn format_json_idempotent() {
    let once = format_json("{\"b\": [1, 2, {\"c\": null}], \"a\": \"x\"}").unwrap();
    let twice = format_json(&once).unwrap();
    assert_eq!(once, twice);
}

#[test]
fn format_json_diagnostic_cites_line_and_text() {
    let err = format_json("{\"a\":}").unwrap_err();
    assert_eq!(err.kind, ErrorKind::ParseFailure);
    let parse_err = serde_json::from_str::<serde_json::Value>("{\"a\":}").unwrap_err();
    let line = parse_err.line();
    let column = parse_err.column();
    let expected = format!(
        "Parse error on line {} column {}:\n{}\n{}^\n{}",
        line,
        column + 1,
        "{\"a\":}",
        "-".repeat(column),
        parse_err
    );
    assert_eq!(err.message, expected);
    assert!(err.message.contains("line 1"));
    assert!(err.message.contains("{\"a\":}"));
    let loc = err.location.unwrap();
    assert_eq!(loc.line, line);
    assert_eq!(loc.column, column);
}

#[test]
fn format_json_diagnostic_second_line() {
    let input = "{\n  \"a\": nope\n}";
    let err = format_json(input).unwrap_err();
    assert!(err.message.contains("line 2"));
    assert!(err.message.contains("  \"a\": nope"));
}

#[test]
fn base64_round_trip() {
    let original = "hello, wörld! 🎉";
    let encoded = encode_base64(original).unwrap();
    let decoded = decode_base64(&encoded).unwrap();
    assert_eq!(decoded, original);
}

#[test]
fn base64_empty_round_trip() {
    assert_eq!(encode_base64("").unwrap(), "");
    assert_eq!(decode_base64("").unwrap(), "");
    assert_eq!(decode_base64("   ").unwrap(), "");
}

#[test]
fn base64_known_value() {
    assert_eq!(encode_base64("f").unwrap(), "Zg==");
    assert_eq!(decode_base64("Zg==").unwrap(), "f");
    assert_eq!(encode_base64("hello").unwrap(), "aGVsbG8=");
}

#[test]
fn base64_invalid_input_rejected() {
    let err = decode_base64("!!!not-base64!!!").unwrap_err();
    assert_eq!(err.kind, ErrorKind::EncodingFailure);
    assert!(err.message.starts_with("Invalid base64 encoding: "));
}

#[test]
fn base64_invalid_utf8_rejected() {
    // "//79/A==" decodes to 0xFF 0xFE 0xFD 0xFC, which is not UTF-8.
    let err = decode_base64("//79/A==").unwrap_err();
    assert_eq!(err.kind, ErrorKind::EncodingFailure);
    assert!(err.message.starts_with("Invalid UTF-8 in decoded data: "));
}

#[test]
fn xml_depth_accounting() {
    let out = format_xml("<a><b>text</b></a>").unwrap();
    assert_eq!(out, "<a>\n  <b>text</b>\n</a>");
}

#[test]
fn xml_unbalanced_rejected() {
    let err = format_xml("<a><b></a>").unwrap_err();
    assert_eq!(err.kind, ErrorKind::ParseFailure);
    assert_eq!(err.message, "Invalid XML: Unbalanced tags detected");
}

#[test]
fn xml_empty_rejected() {
    let err = format_xml("   ").unwrap_err();
    assert_eq!(err.kind, ErrorKind::InvalidInput);
    assert_eq!(err.message, "Empty XML input");
}

#[test]
fn xml_not_tagged_rejected() {
    let err = format_xml("plain text").unwrap_err();
    assert_eq!(err.message, "Invalid XML: Must start with '<' and end with '>'");
}

#[test]
fn xml_untagged_tail_rejected() {
    // An input not ending in `>` fails the frame check before any scan;
    // within a framed input every `<` finds a `>`, so the frame check is
    // what rejects truncated tags.
    let err = format_xml("<a><b").unwrap_err();
    assert_eq!(err.message, "Invalid XML: Must start with '<' and end with '>'");
}

#[test]
fn xml_self_closing_keeps_depth() {
    let out = format_xml("<a><b/><c>x</c></a>").unwrap();
    assert_eq!(out, "<a>\n  <b/>\n  <c>x</c>\n</a>");
}

#[test]
fn xml_round_trip_structure() {
    let input = "<root> <item>one</item><item>two</item> <empty/> </root>";
    let once = format_xml(input).unwrap();
    let twice = format_xml(&once).unwrap();
    assert_eq!(once, twice);
}

#[test]
fn jwt_decode_determinism() {
    let header = "{\"alg\":\"HS256\",\"typ\":\"JWT\"}";
    let payload = "{\"sub\":\"1234567890\",\"name\":\"John Doe\"}";
    let token = format!(
        "{}.{}.signature",
        URL_SAFE_NO_PAD.encode(header),
        URL_SAFE_NO_PAD.encode(payload)
    );
    let out = parse_jwt(&token).unwrap();
    let v: serde_json::Value = serde_json::from_str(&out).unwrap();
    assert_eq!(v["header"]["alg"], "HS256");
    assert_eq!(v["header"]["typ"], "JWT");
    assert_eq!(v["payload"]["sub"], "1234567890");
    assert_eq!(v["payload"]["name"], "John Doe");
    assert_eq!(v["signature"], "Signature (base64): signature");
    assert_eq!(v["token_parts"]["signature"], "signature");
    assert_eq!(v["token_parts"]["header"], URL_SAFE_NO_PAD.encode(header));
    let again = parse_jwt(&token).unwrap();
    assert_eq!(out, again);
}

#[test]
fn jwt_empty_rejected() {
    let err = parse_jwt("  ").unwrap_err();
    assert_eq!(err.kind, ErrorKind::InvalidInput);
    assert_eq!(err.message, "Empty JWT token");
}

#[test]
fn jwt_wrong_part_count_rejected() {
    let err = parse_jwt("abc.def").unwrap_err();
    assert_eq!(err.message, "Invalid JWT format. Expected 3 parts separated by dots.");
}

#[test]
fn jwt_bad_header_rejected() {
    let err = parse_jwt("!!!.eyJhIjoxfQ.sig").unwrap_err();
    assert!(err.message.starts_with("Failed to decode JWT header: "));
}

#[test]
fn jwt_bad_payload_rejected() {
    let header = URL_SAFE_NO_PAD.encode("{\"alg\":\"none\"}");
    let token = format!("{}.%%%.sig", header);
    let err = parse_jwt(&token).unwrap_err();
    assert!(err.message.starts_with("Failed to decode JWT payload: "));
}

#[test]
fn jwt_part_substitutes_urlsafe_alphabet() {
    let raw = "{\"k\":\"\u{00FF}\u{00FE}\"}";
    let standard = STANDARD.encode(raw);
    assert!(standard.contains('/') || standard.contains('+'));
    let urlsafe = standard.replace('+', "-").replace('/', "_");
    let unpadded = urlsafe.trim_end_matches('=');
    let node = decode_jwt_part(unpadded);
    assert!(node.is_ok());
}

#[test]
fn summarize_small_document() {
    let out = summarize_json("{\"name\":\"test\",\"items\":[1,2,3]}").unwrap();
    let expected = "JSON Structure Summary:\n======================\n\n\u{1F4C1} root (Object with 2 keys)\n  \u{1F4CB} items: Array (3 items)\n     \u{2514}\u{2500} All items are: Number\n  \u{1F4DD} name: String (4 chars) - \"test\"\n\n\nStatistics:\n-----------\nTotal objects: 1\nTotal arrays: 1\nTotal primitive values: 4\nMaximum depth: 2\nTotal keys: 2\n";
    assert_eq!(out, expected);
}

#[test]
fn summarize_mixed_array_and_sample() {
    let out = summarize_json("[{\"a\":1},\"x\",true,null]").unwrap();
    assert!(out.contains("\u{2514}\u{2500} Mixed types: "));
    assert!(out.contains("First item structure:"));
    assert!(out.contains("\u{1F4C1} item: Object (1 keys)"));
}

#[test]
fn summarize_long_string_preview() {
    let long = "a".repeat(60);
    let doc = format!("{{\"s\":\"{}\"}}", long);
    let out = summarize_json(&doc).unwrap();
    let expected_preview = format!("\"{}...\"", "a".repeat(47));
    assert!(out.contains(&expected_preview));
    assert!(out.contains("String (60 chars)"));
}

#[test]
fn summarize_empty_rejected() {
    let err = summarize_json("  \n ").unwrap_err();
    assert_eq!(err.kind, ErrorKind::InvalidInput);
    assert_eq!(err.message, "Empty JSON input");
}

#[test]
fn summarize_invalid_rejected() {
    let err = summarize_json("{oops").unwrap_err();
    assert_eq!(err.kind, ErrorKind::ParseFailure);
    assert!(err.message.starts_with("Invalid JSON: "));
}

#[test]
fn stats_count_nested() {
    let out = summarize_json("{\"a\":{\"b\":[true,false]},\"c\":1}").unwrap();
    assert!(out.contains("Total objects: 2\n"));
    assert!(out.contains("Total arrays: 1\n"));
    assert!(out.contains("Total primitive values: 3\n"));
    assert!(out.contains("Maximum depth: 3\n"));
    assert!(out.contains("Total keys: 3\n"));
}

#[test]
fn stats_direct_on_tree() {
    let tree = JsonNode::Object(vec![
        (String::from("xs"), JsonNode::Array(vec![JsonNode::Bool(true), JsonNode::Null])),
        (String::from("n"), JsonNode::Number(String::from("7"))),
    ]);
    let stats = calculate_json_stats(&tree);
    assert_eq!(stats.objects, 1);
    assert_eq!(stats.arrays, 1);
    assert_eq!(stats.primitives, 3);
    assert_eq!(stats.max_depth, 2);
    assert_eq!(stats.total_keys, 2);
}

#[test]
fn stats_scalar_root() {
    let out = summarize_json("42").unwrap();
    assert!(out.contains("Total objects: 0\n"));
    assert!(out.contains("Total primitive values: 1\n"));
    assert!(out.contains("Maximum depth: 0\n"));
}

#[test]
fn xml_leading_closing_tag_balances() {
    // Depth may dip below zero mid-scan; only the final balance matters.
    let out = format_xml("</a><a>").unwrap();
    assert_eq!(out, "\n</a>\n<a>");
    let twice = format_xml(&out).unwrap();
    assert_eq!(out, twice);
}

#[test]
fn xml_inline_text_then_sibling() {
    let out = format_xml("<a>hi<b/></a>").unwrap();
    assert_eq!(out, "<a>hi\n  <b/>\n</a>");
}
