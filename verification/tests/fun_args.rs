use wp_lang::fun_args::{digit_arg, key_arg, normalize_target};
use wp_lang::pipe::{FCharsHas, FDigitHas, FdHas, TakeField};

#[test]
fn target_underscore_means_none() {
    assert_eq!(normalize_target("_".to_string()), None);
    assert_eq!(normalize_target("src".to_string()), Some("src".to_string()));
    assert_eq!(normalize_target("__".to_string()), Some("__".to_string()));
}

#[test]
fn builders_fill_fields() {
    let f = FCharsHas::build(("_".to_string(), "foo".to_string()));
    assert_eq!(f.target, None);
    assert_eq!(f.value, "foo");
    let d = FDigitHas::build(("src".to_string(), 42));
    assert_eq!(d.target, Some("src".to_string()));
    assert_eq!(d.value, 42);
    assert_eq!(FdHas::build("src".to_string()).found, Some("src".to_string()));
    assert_eq!(TakeField::build("x".to_string()).target, "x");
    assert_eq!(FDigitHas::fun_name(), "f_digit_has");
    assert_eq!(TakeField::fun_name(), "take");
}

#[test]
fn key_and_digit_arguments() {
    let mut s = "  src, 1";
    assert_eq!(key_arg(&mut s), Ok("src".to_string()));
    assert_eq!(s, ", 1");
    let mut s = " 42)";
    assert_eq!(digit_arg(&mut s), Ok(42));
    assert_eq!(s, ")");
    let mut s = "99999999999999999999";
    assert_eq!(digit_arg(&mut s), Ok(0));
    assert_eq!(s, "");
    let mut s = "9223372036854775807";
    assert_eq!(digit_arg(&mut s), Ok(i64::MAX));
    let mut s = " x";
    assert!(digit_arg(&mut s).is_err());
    assert_eq!(s, "x");
}
