use wp_lang::sql::{sql_integer, take_sql_token, SqlToken};

#[test]
fn tokens() {
    let mut s = "'key' rest";
    assert_eq!(take_sql_token(&mut s), SqlToken::Chars("key".to_string()));
    assert_eq!(s, " rest");
    let mut s = "\"a b\"";
    assert_eq!(take_sql_token(&mut s), SqlToken::Chars("a b".to_string()));
    assert_eq!(s, "");
    let mut s = "-100.01)";
    assert_eq!(take_sql_token(&mut s), SqlToken::Numeric("-100.01".to_string()));
    assert_eq!(s, ")");
    let mut s = "'open";
    assert_eq!(take_sql_token(&mut s), SqlToken::Numeric(String::new()));
    assert_eq!(s, "'open");
}

#[test]
fn integers() {
    assert_eq!(sql_integer("100"), Some(100));
    assert_eq!(sql_integer("+7"), Some(7));
    assert_eq!(sql_integer("-9223372036854775808"), Some(i64::MIN));
    assert_eq!(sql_integer("9223372036854775807"), Some(i64::MAX));
    assert_eq!(sql_integer("9223372036854775808"), None);
    assert_eq!(sql_integer("100.01"), None);
    assert_eq!(sql_integer("-"), None);
    assert_eq!(sql_integer(""), None);
    assert_eq!(sql_integer("1-2"), None);
}

#[test]
fn test_take_val() {
    // text and integers as the condition parser reads them
    let mut s = "'key'";
    assert_eq!(take_sql_token(&mut s), SqlToken::Chars("key".to_string()));
    let mut s = "100";
    match take_sql_token(&mut s) {
        SqlToken::Numeric(t) => assert_eq!(sql_integer(&t), Some(100)),
        other => panic!("unexpected {:?}", other),
    }
    for text in ["100.01", "-100.01"] {
        let mut s = text;
        match take_sql_token(&mut s) {
            SqlToken::Numeric(t) => {
                assert_eq!(sql_integer(&t), None);
                assert_eq!(t.parse::<f64>().unwrap(), text.parse::<f64>().unwrap());
            }
            other => panic!("unexpected {:?}", other),
        }
    }
}
