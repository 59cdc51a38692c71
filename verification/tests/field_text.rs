use wp_lang::data_type::{ModelError, TextType};
use wp_lang::pipe::{DataField, FieldValue};

fn read(meta: TextType, value: &str) -> Result<DataField, ModelError> {
    DataField::from_str(meta, "f".to_string(), value.to_string())
}

#[test]
fn chars_and_symbols_keep_their_text() {
    let d = read(TextType::Chars, "a b").unwrap();
    assert_eq!(d.name, "f");
    assert!(matches!(&d.value, FieldValue::Chars(s) if s == "a b"));
    let d = read(TextType::Symbol, "GET").unwrap();
    assert!(matches!(&d.value, FieldValue::Symbol(s) if s == "GET"));
}

#[test]
fn digit_text_reads_a_signed_integer() {
    assert!(matches!(read(TextType::Digit, "42").unwrap().value, FieldValue::Digit(42)));
    assert!(matches!(read(TextType::Digit, "+7").unwrap().value, FieldValue::Digit(7)));
    assert!(matches!(read(TextType::Digit, "-15").unwrap().value, FieldValue::Digit(-15)));
    assert!(matches!(
        read(TextType::Digit, "-9223372036854775808").unwrap().value,
        FieldValue::Digit(i64::MIN)
    ));
}

#[test]
fn digit_text_errors() {
    for bad in ["", "-", "12a", " 1", "9223372036854775808", "1_000"] {
        assert!(matches!(read(TextType::Digit, bad), Err(ModelError::Parse(m)) if !m.is_empty()), "{bad}");
    }
}

#[test]
fn bool_text_is_true_or_false() {
    assert!(matches!(read(TextType::Bool, "true").unwrap().value, FieldValue::Bool(true)));
    assert!(matches!(read(TextType::Bool, "false").unwrap().value, FieldValue::Bool(false)));
    for bad in ["True", "1", "", "false "] {
        assert!(matches!(read(TextType::Bool, bad), Err(ModelError::Parse(_))), "{bad}");
    }
}
