use wp_lang::network::{non_root_domain, parse_domain, parse_email, parse_mobile_phone, parse_url};

#[test]
fn test_domain() {
    let mut data = "1-test.warppase.ai";
    assert_eq!(parse_domain(&mut data), Ok("1-test.warppase.ai".to_string()));
    assert_eq!(data, "");

    let mut data = "-1-test.warppase.ai";
    assert!(parse_domain(&mut data).is_err());
    assert_eq!(data, "-1-test.warppase.ai");

    let mut data = "www.s123/df.com";
    assert!(parse_domain(&mut data).is_err());
}

#[test]
fn domain_stops_after_top_label() {
    let mut data = "www.example.com rest";
    assert_eq!(parse_domain(&mut data), Ok("www.example.com".to_string()));
    assert_eq!(data, " rest");
    // one-letter top label
    let mut data = "a.b";
    assert!(parse_domain(&mut data).is_err());
    // a top label of twelve letters
    let mut data = "a.abcdefghijkl";
    assert!(parse_domain(&mut data).is_err());
}

#[test]
fn domain_longer_than_67_fails() {
    let long = format!("{}.com", "a".repeat(64));
    let mut data = long.as_str();
    assert_eq!(parse_domain(&mut data).unwrap_err().context, "domain length need <= 67");
    let ok = format!("{}.com", "a".repeat(63));
    let mut data = ok.as_str();
    assert_eq!(parse_domain(&mut data), Ok(ok.clone()));
}

#[test]
fn non_root_label_rules() {
    let mut s = "abc.def";
    assert_eq!(non_root_domain(&mut s), Ok("abc"));
    assert_eq!(s, "def");
    let mut s = "ab-.def";
    assert_eq!(
        non_root_domain(&mut s).unwrap_err().context,
        "<domain> not starting or ending with a b'-'"
    );
    assert_eq!(s, "ab-.def");
    let mut s = ".def";
    assert!(non_root_domain(&mut s).is_err());
    let mut s = "中文.cn";
    assert_eq!(non_root_domain(&mut s), Ok("中文"));
}

#[test]
fn test_email() {
    let mut data = "johnjoke@example.com";
    assert_eq!(parse_email(&mut data), Ok("johnjoke@example.com".to_string()));
}

#[test]
fn test_email_plus_underscore_hyphen() {
    for mut data in ["user+tag@example-domain.com", "first_last@example.com", "foo-bar@example.co"] {
        assert!(parse_email(&mut data).is_ok());
    }
}

#[test]
fn email_refusals() {
    let mut data = "plopplop.com";
    assert_eq!(parse_email(&mut data).unwrap_err().context, "email format not match");
    assert_eq!(data, "plopplop.com");
    let mut data = "   ";
    assert_eq!(parse_email(&mut data).unwrap_err().context, "<email>");
    assert_eq!(data, "");
    let mut data = "  ,ok@hotmail.com";
    assert_eq!(parse_email(&mut data).unwrap_err().context, "<email>");
    assert_eq!(data, ",ok@hotmail.com");
    let mut data = "  ok@hotmail.com tail";
    assert_eq!(parse_email(&mut data), Ok("ok@hotmail.com".to_string()));
    assert_eq!(data, " tail");
}

#[test]
fn test_url() {
    let mut data = r#"https://github.com/servo/rust-url/blob/main/url/src/parser.rs#L396"#;
    assert_eq!(
        parse_url(&mut data),
        Ok("https://github.com/servo/rust-url/blob/main/url/src/parser.rs#L396".to_string())
    );
}

#[test]
fn url_is_normalised_and_bad_url_refused() {
    let mut data = "HTTP://Example.COM next";
    assert_eq!(parse_url(&mut data), Ok("http://example.com/".to_string()));
    assert_eq!(data, " next");
    let mut data = "not-a-url";
    assert_eq!(parse_url(&mut data).unwrap_err().context, "url format not match");
    assert_eq!(data, "not-a-url");
}

#[test]
fn test_parse_mobile() {
    let mut data = "13562479856";
    assert_eq!(parse_mobile_phone(&mut data), Ok("13562479856".to_string()));
}

#[test]
fn mobile_needs_digits() {
    let mut data = "+86";
    assert_eq!(parse_mobile_phone(&mut data).unwrap_err().context, "<mobile_phone>");
    let mut data = "123abc";
    assert_eq!(parse_mobile_phone(&mut data), Ok("123".to_string()));
    assert_eq!(data, "abc");
}

#[test]
fn domain_labels_keep_their_shape() {
    let mut data = "a-b.c-d.com";
    assert_eq!(parse_domain(&mut data), Ok("a-b.c-d.com".to_string()));
    for bad in ["a-.com", "x.-b.com", ".com", "a..com", "a.b1"] {
        let mut data = bad;
        assert!(parse_domain(&mut data).is_err(), "{bad}");
        assert_eq!(data, bad);
    }
}
