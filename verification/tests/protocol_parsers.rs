use wp_lang::json::JsonProc;
use wp_lang::protocol::{exact_json_parse, parse_base64_field};
use wp_lang::sep::WplSep;

#[test]
fn test_base64() {
    let mut data = "aGVsbG8=";
    let sep = WplSep::field_sep(" ");
    assert_eq!(parse_base64_field(&sep, &mut data), Ok("hello".to_string()));
    assert_eq!(data, "");
}

#[test]
fn base64_field_stops_at_separator_and_reports_bad_text() {
    let sep = WplSep::field_sep(",");
    let mut data = "Zm9vYmFy,next";
    assert_eq!(parse_base64_field(&sep, &mut data), Ok("foobar".to_string()));
    assert_eq!(data, ",next");
    let mut data = "not base64!,next";
    assert_eq!(parse_base64_field(&sep, &mut data).unwrap_err().context, "base64 decode error");
    assert_eq!(data, ",next");
    // bytes that are not UTF-8 become U+FFFD
    let mut data = "/w==";
    assert_eq!(parse_base64_field(&sep, &mut data), Ok("\u{FFFD}".to_string()));
}

#[test]
fn exact_json_reads_one_document() {
    let max = JsonProc::MAX_DEPTH;
    let mut out = Vec::new();
    let mut data = "  {\"a\": {\"b\": null}} tail";
    assert!(exact_json_parse(&mut data, "doc", &mut out, max).is_ok());
    assert_eq!(data, " tail");
    assert!(out.is_empty());

    let mut data = " {\"a\": 1} tail";
    let e = exact_json_parse(&mut data, "doc", &mut out, max).unwrap_err();
    assert_eq!(e.context, "exact_json mismatch");
    assert_eq!(data, "{\"a\": 1} tail");

    let mut data = " {oops";
    let e = exact_json_parse(&mut data, "doc", &mut out, max).unwrap_err();
    assert_eq!(e.context, "");
    assert_eq!(data, "{oops");
    assert!(out.is_empty());
}

#[test]
fn exact_json_depth_bound() {
    let mut out = Vec::new();
    let mut data = "{\"a\": {\"b\": {}}}";
    let e = exact_json_parse(&mut data, "doc", &mut out, 2).unwrap_err();
    assert_eq!(e.context, "json nested too deep");
    let mut data = "[]";
    // an array fails the exact check
    let e = exact_json_parse(&mut data, "doc", &mut out, 8).unwrap_err();
    assert_eq!(e.context, "exact_json mismatch");
}
