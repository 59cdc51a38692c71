use wp_lang::group::WplGroupType;
use wp_lang::rule::{merge_rules_tags, WplExpress, WplGroup, WplRule, WplRuleMeta, WplStatementType};
use wp_lang::sep::WplSep;
use wp_lang::tag::{AnnFun, TagKvs};

fn ann(pairs: &[(&str, &str)]) -> AnnFun {
    let mut t = TagKvs::new();
    for (k, v) in pairs {
        t.insert(k.to_string(), v.to_string());
    }
    AnnFun { tags: t, copy_raw: None }
}

fn rule(name: &str, fields: Vec<&'static str>, tags: Option<AnnFun>) -> WplRule<&'static str> {
    WplRule::new(name.to_string(), WplStatementType::Express(WplExpress::from_fields(fields)))
        .add_tags(tags)
}

#[test]
fn group_kind_and_separator() {
    let mut g: WplGroup<&str> = WplGroup::new(vec!["ip", "time"]);
    assert_eq!(g.first(), Some(&"ip"));
    g.meta_from(Some("alt"));
    assert_eq!(g.meta, WplGroupType::Alt(Default::default()));
    g.meta_from(Some("nope"));
    assert_eq!(g.meta, WplGroupType::default());
    assert_eq!(g.resolve_sep(&WplSep::inherited_sep("|")).sep_str(), "|");
    g.base_group_sep = Some(WplSep::group_sep(","));
    assert_eq!(g.resolve_sep(&WplSep::inherited_sep("|")).sep_str(), ",");
    assert_eq!(g.resolve_sep(&WplSep::field_sep(";")).sep_str(), ";");
}

#[test]
fn rules_inherit_package_tags() {
    let mut rules = vec![
        rule("a", vec!["ip"], Some(ann(&[("env", "dev")]))),
        rule("b", vec!["time"], None),
    ];
    let pkg = Some(ann(&[("env", "prod"), ("team", "ops")]));
    merge_rules_tags(&mut rules, &pkg);
    let a = rules[0].statement.tags().as_ref().unwrap();
    assert_eq!(a.tags.get("env").map(|s| s.as_str()), Some("dev"));
    assert_eq!(a.tags.get("team").map(|s| s.as_str()), Some("ops"));
    let b = rules[1].statement.tags().as_ref().unwrap();
    assert_eq!(b.tags.get("env").map(|s| s.as_str()), Some("prod"));
    assert_eq!(rules[1].statement.first_field(), Some(&"time"));
    assert_eq!(rules[0].path("pkg"), "pkg/a");
    let meta = WplRuleMeta::from_rule(&rules[0]);
    assert_eq!(meta.name, "a");
    let keys: Vec<&str> = meta.tags.iter().map(|t| t.key.as_str()).collect();
    assert_eq!(keys, vec!["env", "team"]);
}

#[test]
fn no_tags_stay_none() {
    let mut e: WplExpress<&str> = WplExpress::new(vec![]);
    e.merge_tags(&None);
    assert!(e.tags.is_none());
    let r = rule("c", vec![], None);
    assert!(r.statement.first_group().is_some());
    assert!(r.statement.first_field().is_none());
    assert!(WplRuleMeta::from_rule(&r).tags.is_empty());
}
