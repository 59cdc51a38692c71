use base64::Engine;
use wp_lang::builtins::{Base64Proc, Base64ProcError, RawData};
use wp_lang::field_error::{no_empty, no_less, FieldError};
use wp_lang::pipe::{
    decode_json_escapes, value_base64_decode, value_json_unescape, Base64Decode, DataField,
    FCharsHas, FCharsIn, FCharsNotHas, FDigitHas, FDigitIn, FIpAddrIn, FdHas, FieldIndex,
    FieldSelectorSpec, FieldValue, IpAddress, LastJsonUnescape, SelectLast, TakeField, WplFun,
};
use std::sync::Arc;

fn chars_of_field(f: &DataField) -> Option<&str> {
    match &f.value {
        FieldValue::Chars(s) => Some(s.as_str()),
        _ => None,
    }
}

#[test]
fn test_option_conv() {
    let conf = no_empty(None::<&str>);
    assert_eq!(conf, Err(FieldError::Empty));
}

#[test]
fn no_less_names_the_missing_item() {
    assert_eq!(no_less(None::<u8>, "sep"), Err(FieldError::LessConf("sep less".to_string())));
    assert_eq!(no_less(Some(3u8), "sep"), Ok(3));
}

#[test]
fn base64_decode_successfully_rewrites_chars_field() {
    let encoded = base64::engine::general_purpose::STANDARD.encode("hello world");
    let mut fields = vec![DataField::from_chars("payload".to_string(), encoded)];
    Base64Decode {}.process(fields.get_mut(0)).expect("decode ok");
    if let FieldValue::Chars(s) = &fields[0].value {
        assert_eq!(s, "hello world");
    } else {
        panic!("payload should remain chars");
    }
}

#[test]
fn base64_decode_returns_err_on_invalid_payload() {
    let mut fields = vec![DataField::from_chars("payload".to_string(), "***".to_string())];
    assert!(Base64Decode {}.process(fields.get_mut(0)).is_err());
    assert_eq!(chars_of_field(&fields[0]), Some("***"));
}

#[test]
fn base64_decode_without_field_fails() {
    let e = Base64Decode {}.process(None).unwrap_err();
    assert_eq!(e.context, "base64_decode | no active field");
}

#[test]
fn json_unescape_successfully_decodes_chars_field() {
    let mut fields = vec![DataField::from_chars("txt".to_string(), r"line1\nline2".to_string())];
    LastJsonUnescape {}.process(fields.get_mut(0)).expect("decode ok");
    if let FieldValue::Chars(s) = &fields[0].value {
        assert!(s.contains('\n'));
        assert_eq!(s, "line1\nline2");
    } else {
        panic!("txt should stay chars");
    }
}

#[test]
fn json_unescape_returns_err_on_invalid_escape() {
    let mut fields = vec![DataField::from_chars("txt".to_string(), r"line1\qline2".to_string())];
    assert!(LastJsonUnescape {}.process(fields.get_mut(0)).is_err());
}

#[test]
fn json_unescape_keeps_plain_text_and_refuses_numbers() {
    let mut v = FieldValue::Chars("plain \"x\"".to_string());
    assert!(value_json_unescape(&mut v));
    assert!(matches!(&v, FieldValue::Chars(s) if s == "plain \"x\""));
    let mut d = FieldValue::Digit(7);
    assert!(!value_json_unescape(&mut d));
    let mut b = FieldValue::Digit(7);
    assert!(!value_base64_decode(&mut b));
}

#[test]
fn decode_json_escapes_reads_unicode_escape() {
    assert_eq!(decode_json_escapes(r"a\u0041\t"), Some("aA\t".to_string()));
    assert_eq!(decode_json_escapes("bad\"quote"), None);
}

#[test]
fn base64_test_base64() {
    let y = Base64Proc.process(RawData::String("aGVsbG8=".to_string())).unwrap();
    assert!(matches!(&y, RawData::String(s) if s == "hello"));

    let data = RawData::String("VGhpcyBpcyBhIHRlc3Qgb2YgYSBiYXNlNjQgZW5jb2RlZCBzdHJpbmcgd2l0aCBzcGVjaWFsIGNoYXJhY3RlcnMhIEBfXyUgJiYqKys=".to_string());
    let what = Base64Proc.process(data).unwrap();
    match what {
        RawData::String(s) => assert!(s.starts_with(
            "This is a test of a base64 encoded string with special characters! @__% &&*++"
        )),
        _ => panic!("text stays text"),
    }

    let result = Base64Proc.process(RawData::Bytes(b"aGVsbG8=".to_vec())).unwrap();
    assert!(matches!(&result, RawData::Bytes(b) if b.as_slice() == b"hello"));

    let result = Base64Proc.process(RawData::ArcBytes(Arc::new(b"Zm9vYmFy".to_vec()))).unwrap();
    assert!(matches!(&result, RawData::ArcBytes(b) if b.as_slice() == b"foobar"));
}

#[test]
fn base64_proc_errors() {
    assert_eq!(
        Base64Proc.process(RawData::String("***".to_string())).unwrap_err(),
        Base64ProcError::InvalidBase64
    );
    // "/w==" decodes to the single byte 0xFF, which is not UTF-8: text falls back to bytes.
    assert!(matches!(
        Base64Proc.process(RawData::String("/w==".to_string())),
        Ok(RawData::Bytes(b)) if b == vec![0xFFu8]
    ));
    assert!(matches!(
        Base64Proc.process(RawData::Bytes(b"/w==".to_vec())),
        Ok(RawData::Bytes(b)) if b == vec![0xFFu8]
    ));
    assert_eq!(Base64Proc.name(), "decode/base64");
}

fn sample_fields() -> Vec<DataField> {
    vec![
        DataField::from_chars("a".to_string(), "x".to_string()),
        DataField::from_digit("b".to_string(), 5),
        DataField::from_chars("a".to_string(), "y".to_string()),
        DataField::from_ip("ip".to_string(), IpAddress::V4(0x7f000001)),
    ]
}

#[test]
fn field_index_last_name_wins() {
    let fields = sample_fields();
    let idx = FieldIndex::build(&fields);
    assert_eq!(idx.get("a"), Some(2));
    assert_eq!(idx.get("b"), Some(1));
    assert_eq!(idx.get("zz"), None);
}

#[test]
fn take_field_prefers_index_then_first_match() {
    let mut fields = sample_fields();
    let take = TakeField { target: "a".to_string() };
    assert_eq!(take.select(&mut fields, None), Ok(Some(0)));
    let idx = FieldIndex::build(&fields);
    assert_eq!(take.select(&mut fields, Some(&idx)), Ok(Some(2)));
    let missing = TakeField { target: "nope".to_string() };
    assert_eq!(missing.select(&mut fields, None).unwrap_err().context, "take | not exists");
    assert!(take.requires_index());
}

#[test]
fn select_last_picks_last_or_fails() {
    let mut fields = sample_fields();
    assert_eq!(SelectLast {}.select(&mut fields, None), Ok(Some(3)));
    let mut empty: Vec<DataField> = Vec::new();
    assert_eq!(SelectLast {}.select(&mut empty, None).unwrap_err().context, "last | not exists");
    assert!(!SelectLast {}.requires_index());
}

#[test]
fn check_pipes_on_values() {
    let fields = sample_fields();
    let has_x = FCharsHas { target: None, value: "x".to_string() };
    assert!(has_x.process(Some(&fields[0])).is_ok());
    assert_eq!(has_x.process(Some(&fields[2])).unwrap_err().context, "<pipe> | not exists");
    assert!(has_x.process(None).is_err());

    let not_x = FCharsNotHas { target: None, value: "x".to_string() };
    assert!(not_x.process(None).is_ok());
    assert!(not_x.process(Some(&fields[2])).is_ok());
    assert!(not_x.process(Some(&fields[0])).is_err());
    assert!(not_x.process(Some(&fields[1])).is_err());

    let five = FDigitHas { target: None, value: 5 };
    assert!(five.process(Some(&fields[1])).is_ok());
    assert!(five.process(Some(&fields[0])).is_err());

    let digits = FDigitIn { target: None, value: vec![1, 5, 9] };
    assert!(digits.process(Some(&fields[1])).is_ok());
    let digits2 = FDigitIn { target: None, value: vec![1, 9] };
    assert_eq!(digits2.process(Some(&fields[1])).unwrap_err().context, "<pipe> | not in");

    let texts = FCharsIn { target: None, value: vec!["y".to_string(), "z".to_string()] };
    assert!(texts.process(Some(&fields[2])).is_ok());
    assert!(texts.process(Some(&fields[0])).is_err());

    let ips = FIpAddrIn { target: None, value: vec![IpAddress::V4(0x7f000001)] };
    assert!(ips.process(Some(&fields[3])).is_ok());
    assert!(ips.process(Some(&fields[0])).is_err());

    let exists = FdHas::new("a".to_string());
    assert!(exists.process(Some(&fields[0])).is_ok());
    assert_eq!(exists.process(None).unwrap_err().context, "json not exists sub item");
}

#[test]
fn auto_selection_and_index_need() {
    let f = WplFun::FCharsExists(FCharsHas { target: Some("a".to_string()), value: "x".to_string() });
    assert!(matches!(f.auto_selector_spec(), Some(FieldSelectorSpec::Take("a"))));
    assert!(f.requires_index());
    let g = WplFun::FCharsExists(FCharsHas { target: None, value: "x".to_string() });
    assert!(g.auto_selector_spec().is_none());
    assert!(!g.requires_index());
    assert!(WplFun::SelectTake(TakeField { target: "a".to_string() }).requires_index());
    assert!(!WplFun::SelectLast(SelectLast {}).requires_index());
    assert!(!WplFun::TransBase64Decode(Base64Decode {}).requires_index());
}
