use wp_lang::text::ParseFail;
use wp_lang::utils::{
    quot_r_str, quot_str, take_key, take_parentheses, take_tag_kv, take_to_end, window_path,
};

fn peek<'a>(
    f: fn(&mut &'a str) -> Result<&'a str, ParseFail>,
    input: &'a str,
) -> Result<(&'a str, &'a str), ParseFail> {
    let mut rest = input;
    let out = f(&mut rest)?;
    Ok((rest, out))
}

#[test]
fn test_key_ident() {
    assert_eq!(Ok(("", "key")), peek(take_key, "key"));
    assert_eq!(Ok(("!", "key")), peek(take_key, "key!"));
    assert_eq!(Ok(("!", "http/request")), peek(take_key, "http/request!"));
    assert_eq!(Ok(("!", "123http/request")), peek(take_key, "123http/request!"));
}

#[test]
fn test_quot_str() {
    assert_eq!(peek(quot_str, "\"123\""), Ok(("", "123")));
    assert_eq!(peek(quot_str, "\"1-?#ab\""), Ok(("", "1-?#ab")));
    assert_eq!(peek(quot_str, r#""12\"3""#), Ok(("", r#"12\"3"#)));
    assert_eq!(peek(quot_str, "\"中文🙂\""), Ok(("", "中文🙂")));
    assert_eq!(
        peek(window_path, r#""sddD:\招标项目\6-MSS\mss日志映射表""#),
        Ok(("", r#"sddD:\招标项目\6-MSS\mss日志映射表"#))
    );
}

#[test]
fn test_quot_r_str() {
    assert_eq!(peek(quot_r_str, "r#\"a\\b \"c\"\"#"), Ok(("", "a\\b \"c\"")));
    assert_eq!(peek(quot_r_str, "r#\"end\"#"), Ok(("", "end")));
    assert_eq!(peek(quot_r_str, "r\"raw\""), Ok(("", "raw")));
}

#[test]
fn test_take_pat() {
    assert_eq!(peek(take_parentheses, "(123)"), Ok(("", "123")));
    assert_eq!(peek(take_parentheses, r#"(12\)3)"#), Ok(("", r#"12\)3"#)));
}

#[test]
fn test_take_to_end() {
    let x = peek(take_to_end, "").unwrap();
    assert_eq!(x, ("", ""));
    let input = "hello 你好 😂 😁 π \u{3001} \n \t en";
    let x = peek(take_to_end, input).unwrap();
    assert_eq!(x, ("", input));
}

#[test]
fn test_tag_kv_hex_escape() {
    let mut s = "key:\"\\xE4\\xB8\\xAD\\xE6\\x96\\x87\"";
    let (k, v) = take_tag_kv(&mut s).unwrap();
    assert_eq!(k, "key");
    assert_eq!(v, "中文");
}

#[test]
fn key_stops_at_first_foreign_char() {
    let mut s = "a.b c";
    assert_eq!(take_key(&mut s), Ok("a.b"));
    assert_eq!(s, " c");
}

#[test]
fn quot_str_refuses_unquoted_input() {
    let mut s = "abc";
    assert!(quot_str(&mut s).is_err());
}

#[test]
fn parentheses_without_close_fail() {
    let mut s = "(abc";
    assert!(take_parentheses(&mut s).is_err());
}

#[test]
fn escape_then_decode_gives_text_back() {
    let text = "a\\b \"c\"\n\tz\r中";
    let mut escaped = String::new();
    for c in text.chars() {
        match c {
            '\\' => escaped.push_str("\\\\"),
            '"' => escaped.push_str("\\\""),
            '\n' => escaped.push_str("\\n"),
            '\t' => escaped.push_str("\\t"),
            '\r' => escaped.push_str("\\r"),
            other => escaped.push(other),
        }
    }
    assert_eq!(wp_lang::string::decode_escapes(&escaped), text);
}

#[test]
fn decoding_never_grows_the_text() {
    for s in ["a\\x41\\n", "\\\\\\\"", "\\q\\x4", "plain é", "\\xZZ!", "\\"] {
        assert!(wp_lang::string::decode_escapes(s).len() <= s.len(), "{s}");
        assert!(wp_lang::string::decode_escapes(s).chars().count() <= s.len(), "{s}");
    }
    assert_eq!(wp_lang::string::decode_escapes("a\\x41\\n"), "aA\n");
}
