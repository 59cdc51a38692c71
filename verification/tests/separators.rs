use wp_lang::sep::{GenFmt, SepEnum, WplFmt, WplSep};

#[test]
fn field_sep_wins_over_group_and_inherited() {
    let mut f = WplSep::field_sep(",");
    f.override_with(&WplSep::group_sep(";"));
    assert_eq!(f.sep_str(), ",");
    assert_eq!(*f.prio(), 3);
    let mut g = WplSep::inherited_sep(" ");
    g.override_with(&WplSep::group_sep(";"));
    assert_eq!(g.sep_str(), ";");
    assert_eq!(*g.prio(), 2);
    // once more changes nothing
    g.override_with(&WplSep::group_sep(";"));
    assert_eq!(g.sep_str(), ";");
}

#[test]
fn apply_default_fills_unset() {
    let mut d = WplSep::default();
    assert!(d.is_unset());
    assert_eq!(d.sep_str(), " ");
    assert!(d.is_space_sep());
    d.apply_default(WplSep::inherited_sep("|"));
    assert!(!d.is_unset());
    assert_eq!(d.sep_str(), "|");
    assert!(d.need_take_sep());
}

#[test]
fn end_separator() {
    let s = WplSep::field_sep("\\0");
    assert!(s.is_to_end());
    assert_eq!(s.sep_str(), "\n");
    assert!(!s.need_take_sep());
    assert!(matches!(SepEnum::from_str_value("0"), SepEnum::End));
}

#[test]
fn consume_and_read_until() {
    let s = WplSep::field_sep(",");
    let mut input = ",rest";
    assert!(s.consume_sep(&mut input).is_ok());
    assert_eq!(input, "rest");
    let mut input = "rest";
    assert!(s.consume_sep(&mut input).is_err());
    assert!(s.try_consume_sep(&mut input).is_ok());
    assert_eq!(input, "rest");

    let mut data = "abc,def";
    assert_eq!(s.read_until_sep(&mut data), Ok("abc".to_string()));
    assert_eq!(data, ",def");
    let mut data = "\"a,b\",c";
    assert_eq!(s.read_until_sep(&mut data), Ok("a,b".to_string()));
    let mut data = "tail";
    assert_eq!(s.read_until_sep(&mut data), Ok("tail".to_string()));
    assert_eq!(data, "");
}

#[test]
fn read_until_nearest_of_two_ends() {
    let s = WplSep::field_sep_until(",", ")", true);
    let mut data = "ab)c,d";
    assert_eq!(s.read_until_sep(&mut data), Ok("ab".to_string()));
    assert_eq!(data, ")c,d");
    let s2 = WplSep::field_sep_until("::", ";;", true);
    let mut data = "x;;y::z";
    assert_eq!(s2.read_until_sep(&mut data), Ok("x".to_string()));
    assert_eq!(data, ";;y::z");
}

#[test]
fn read_repeated_pieces() {
    let s = WplSep::field_sep(",");
    let mut data = "a,b,c,d";
    assert_eq!(s.read_until_sep_repeat(3, &mut data), Ok("a,b,c".to_string()));
    assert_eq!(data, ",d");
}

#[test]
fn formats() {
    assert_eq!(WplFmt(&WplSep::field_sep(",")).fmt_string(), "\\,");
    assert_eq!(WplFmt(&WplSep::infer_field_sep(",")).fmt_string(), "");
    assert_eq!(GenFmt(&WplSep::field_sep(";")).fmt_string(), ";");
}
