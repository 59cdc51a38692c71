use wp_lang::gen_rule::{FieldGenBuilder, FieldGenConf, GenScopeEnum};

fn conf<'a>(items: &'a [(String, FieldGenConf)], name: &str) -> Option<&'a FieldGenConf> {
    items.iter().find(|(k, _)| k == name).map(|(_, c)| c)
}

#[test]
fn builder_keeps_one_generator_per_name() {
    let items = FieldGenBuilder::new()
        .digit("n".to_string(), 1, 10)
        .chars_from("c".to_string(), &["a", "b"])
        .digit("n".to_string(), 5, 6)
        .build();
    assert_eq!(items.len(), 2);
    let n = conf(&items, "n").unwrap();
    assert!(matches!(&n.scope, Some(GenScopeEnum::Digit(g)) if g.beg == 5 && g.end == 6));
    assert_eq!(n.gen_type, "digit");
    let c = conf(&items, "c").unwrap();
    assert!(matches!(&c.scope, Some(GenScopeEnum::Chars(v)) if v == &vec!["a".to_string(), "b".to_string()]));
    assert_eq!(c.gen_type, "chars");
}

#[test]
fn with_fmt_sets_format_of_named_field_only() {
    let items = FieldGenBuilder::new()
        .ip("ip".to_string(), 0x0A000001, 0x0A0000FF)
        .chars("t".to_string())
        .with_fmt("ip", "IP-{val}".to_string())
        .with_fmt("missing", "x".to_string())
        .build();
    assert_eq!(items.len(), 2);
    assert_eq!(conf(&items, "ip").unwrap().gen_fmt.as_deref(), Some("IP-{val}"));
    assert_eq!(conf(&items, "t").unwrap().gen_fmt, None);
    assert!(conf(&items, "missing").is_none());
}

#[test]
fn conf_constructors() {
    let d = FieldGenConf::default();
    assert!(matches!(&d.scope, Some(GenScopeEnum::Digit(g)) if g.beg == 0 && g.end == 100));
    assert_eq!(d.gen_fmt.as_deref(), Some("SN-{val}"));
    let f = FieldGenConf::float_of(1.5f64.to_bits(), 2.5f64.to_bits());
    assert!(matches!(&f.scope, Some(GenScopeEnum::Float(g)) if f64::from_bits(g.beg) == 1.5));
    assert_eq!(f.gen_type, "float");
    let e = FieldGenConf::example_3();
    assert!(matches!(&e.scope, Some(GenScopeEnum::Ip(g)) if g.beg == u32::from_be_bytes([10, 0, 10, 0])));
    let w = FieldGenConf::example_1().with_fmt("D{val}".to_string());
    assert_eq!(w.gen_fmt.as_deref(), Some("D{val}"));
    assert_eq!(w.gen_type, "digit");
}
