use wp_lang::checker::{Checker, FailureAction};
use wp_lang::desc::{fpu_idx_desc, group_idx_desc};
use wp_lang::error::{error_detail, ParseErrorInfo};
use wp_lang::group::WplGroupType;
use wp_lang::json::JsonProc;
use wp_lang::pkg::{gen_pkg_id, pkg_id_base_of, PkgIdGen};
use wp_lang::setting::check_level_or_stop;
use wp_lang::tag::{AnnFun, TagKvs, WplTag};
use wp_lang::wild_map::{SubUnitManager, WildMap};

#[test]
fn test_gen_id() {
    let mut ids = PkgIdGen::starting_now();
    let a = gen_pkg_id(&mut ids);
    let b = gen_pkg_id(&mut ids);
    assert_ne!(a, b);
    println!("{},{}", a, b);
}

#[test]
fn ids_count_up_from_base() {
    let mut ids = PkgIdGen::with_base(1000);
    assert_eq!(gen_pkg_id(&mut ids), 1000);
    assert_eq!(gen_pkg_id(&mut ids), 1001);
    assert_eq!(pkg_id_base_of(7), 7u64 << 24);
}

fn tags(pairs: &[(&str, &str)]) -> TagKvs {
    let mut t = TagKvs::new();
    for (k, v) in pairs {
        t.insert(k.to_string(), v.to_string());
    }
    t
}

#[test]
fn tag_map_keeps_key_order_and_last_write() {
    let t = tags(&[("b", "1"), ("a", "2"), ("b", "3")]);
    assert_eq!(t.len(), 2);
    assert_eq!(t.get("b").map(|s| s.as_str()), Some("3"));
    assert_eq!(t.get("a").map(|s| s.as_str()), Some("2"));
    assert_eq!(t.get("c"), None);
    let keys: Vec<&str> = t.entries().iter().map(|(k, _)| k.as_str()).collect();
    assert_eq!(keys, vec!["a", "b"]);
}

#[test]
fn merge_keeps_own_tags_and_adds_missing() {
    let mut own = AnnFun { tags: tags(&[("a", "own")]), copy_raw: None };
    let other = AnnFun {
        tags: tags(&[("a", "theirs"), ("z", "9")]),
        copy_raw: Some(("k".to_string(), "v".to_string())),
    };
    own.merge_tags(&Some(other.clone()));
    assert_eq!(own.tags.get("a").map(|s| s.as_str()), Some("own"));
    assert_eq!(own.tags.get("z").map(|s| s.as_str()), Some("9"));
    assert_eq!(own.copy_raw, Some(("k".to_string(), "v".to_string())));
    // a second merge changes nothing
    let before: Vec<(String, String)> = own.tags.entries().clone();
    own.merge_tags(&Some(other));
    assert_eq!(own.tags.entries(), &before);
    // merging nothing keeps everything
    own.merge_tags(&None);
    assert_eq!(own.tags.entries(), &before);
    let exported = own.export_tags();
    assert_eq!(exported.len(), 2);
    assert_eq!(exported[0].key, "a");
    assert_eq!(exported[1].val, "9");
}

#[test]
fn tag_text_round_trip() {
    let t = WplTag::new("env".to_string(), "prod".to_string());
    assert_eq!(t.tag_text(), "env:prod");
    let back = WplTag::from_tag_text("env:prod").unwrap();
    assert_eq!(back.key(), "env");
    assert_eq!(back.val(), "prod");
    assert!(WplTag::from_tag_text("a:b:c").is_none());
    assert!(WplTag::from_tag_text("abc").is_none());
    let empty = WplTag::from_tag_text(":").unwrap();
    assert_eq!((empty.key.as_str(), empty.val.as_str()), ("", ""));
}

#[test]
fn wild_map_exact_before_wild() {
    let mut m: WildMap<u32> = WildMap::new();
    m.insert("a*".to_string(), 1);
    m.insert("abc".to_string(), 2);
    assert_eq!(m.get("abc"), Some(&2));
    assert_eq!(m.get("abd"), Some(&1));
    assert_eq!(m.get("x"), None);
    assert_eq!(m.len(), 2);
    assert!(!m.is_empty());
    assert_eq!(m.get_more("abz"), Some(("a*", &1)));
}

#[test]
fn checker_levels_and_failures() {
    let c = Checker::new(true, 2);
    assert!(c.need_notice(0));
    assert!(c.need_notice(1));
    assert!(!c.need_notice(2));
    assert!(c.will_end());
    assert_eq!(c.fail_action("boom".to_string()).unwrap_err().0, "boom");
    let quiet = Checker::new(false, 9);
    assert!(quiet.need_notice(4));
    assert!(quiet.fail_action("x".to_string()).is_ok());
}

#[test]
fn failure_action_text() {
    assert_eq!(FailureAction::from_text("break"), FailureAction::Break);
    assert_eq!(FailureAction::from_text("panic"), FailureAction::Panic);
    assert_eq!(FailureAction::from_text("other"), FailureAction::Continue);
    assert_eq!(FailureAction::Break.to_text(), "break");
}

#[test]
fn group_words() {
    assert!(matches!(WplGroupType::from_text("alt"), Ok(WplGroupType::Alt(_))));
    assert!(WplGroupType::from_text("nope").is_err());
    assert_eq!(WplGroupType::from_text("some_of").unwrap().fmt_string(), "some_of");
}

#[test]
fn level_or_stop() {
    assert_eq!(check_level_or_stop(Some(2), None), (2, false));
    assert_eq!(check_level_or_stop(Some(2), Some(3)), (3, true));
    assert_eq!(check_level_or_stop(None, None), (0, false));
}

#[test]
fn index_descriptions() {
    assert_eq!(group_idx_desc(0), "");
    assert_eq!(group_idx_desc(3), "group[3]");
    assert_eq!(group_idx_desc(12), "group[.]");
    assert_eq!(fpu_idx_desc(9), "field[9]");
}

#[test]
fn error_report_layout() {
    let r = error_detail(ParseErrorInfo { input: "ab\ncd", offset: 4, message: "oops".to_string() });
    assert_eq!(r, "parse error at line 2, column 2\n  |\n2 | cd\n  |  ^\n\noops");
}

#[test]
fn json_paths_and_depth() {
    assert_eq!(JsonProc::json_path("", "a"), "a");
    assert_eq!(JsonProc::json_path("a/b", "c"), "a/b/c");
    assert_eq!(JsonProc::item_name("key", 12), "key[12]");
    assert_eq!(JsonProc::max_depth(Some(3), Some(9)), 3);
    assert_eq!(JsonProc::max_depth(None, Some(9)), 9);
    assert_eq!(JsonProc::max_depth(None, None), 128);
    assert_eq!(JsonProc::string_preserve_escapes("\"c:\\\\users\""), "c:\\\\users");
    assert_eq!(JsonProc::string_preserve_escapes("  \"x\"\n"), "x");
    assert_eq!(JsonProc::string_preserve_escapes("\"\""), "");
}

#[test]
fn check_fail_text() {
    let c = Checker::new(true, 0);
    let e = c.fail_action("bad value".to_string()).unwrap_err();
    assert_eq!(e.to_text(), "CheckFail! (bad value)");
}

#[test]
fn sub_units_by_key() {
    let mut m: SubUnitManager<&str> = SubUnitManager::new();
    m.add("a/*".to_string(), "wild");
    m.add("a/b".to_string(), "exact");
    assert_eq!(m.get("a/b"), Some(&"exact"));
    assert_eq!(m.get("a/c"), Some(&"wild"));
    assert_eq!(m.get("b"), None);
}

#[test]
fn trim_uses_unicode_white_space() {
    assert_eq!(JsonProc::string_preserve_escapes("\u{3000}\"x\"\u{A0}\t"), "x");
}

#[test]
fn group_words_read_back() {
    for w in ["opt", "seq", "alt", "some_of"] {
        assert_eq!(WplGroupType::from_text(w).unwrap().fmt_string(), w);
    }
    assert!(matches!(WplGroupType::from_text("order"), Ok(WplGroupType::Sequence(_))));
    for w in ["", "Opt", "orders", "some-of"] {
        assert!(WplGroupType::from_text(w).is_err(), "{w}");
    }
}
