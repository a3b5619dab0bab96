use addr::rules::PslRuleset;

fn labs(parts: &[&str]) -> Vec<String> {
    parts.iter().map(|s| s.to_string()).collect()
}

#[test]
fn longer_plain_rule_wins() {
    let mut l = PslRuleset::new();
    l.add_plain(labs(&["com"]));
    l.add_plain(labs(&["uk", "com"]));
    let d = l.parse_domain_name("x.uk.com").unwrap();
    assert_eq!(d.suffix(), "uk.com");
    assert_eq!(d.root(), Some("x.uk.com".to_string()));
}

#[test]
fn wildcard_beats_shorter_plain_rule() {
    let mut l = PslRuleset::new();
    l.add_plain(labs(&["ck"]));
    l.add_wildcard(labs(&["ck"]));
    let d = l.parse_domain_name("a.b.ck").unwrap();
    assert_eq!(d.suffix(), "b.ck");
    assert_eq!(d.root(), Some("a.b.ck".to_string()));
}

#[test]
fn exception_beats_wildcard_of_greater_depth() {
    let mut l = PslRuleset::new();
    l.add_plain(labs(&["jp"]));
    l.add_wildcard(labs(&["kobe", "jp"]));
    l.add_exception(labs(&["city", "kobe", "jp"]));
    let d = l.parse_domain_name("x.city.kobe.jp").unwrap();
    assert_eq!(d.suffix(), "kobe.jp");
    assert_eq!(d.root(), Some("city.kobe.jp".to_string()));
    assert!(d.has_known_suffix());
    let other = l.parse_domain_name("a.b.kobe.jp").unwrap();
    assert_eq!(other.suffix(), "b.kobe.jp");
    assert_eq!(other.root(), Some("a.b.kobe.jp".to_string()));
}

#[test]
fn exception_beats_longer_plain_rule() {
    let mut l = PslRuleset::new();
    l.add_plain(labs(&["a", "b", "c"]));
    l.add_exception(labs(&["b", "c"]));
    let d = l.parse_domain_name("a.b.c").unwrap();
    assert_eq!(d.suffix(), "c");
    assert_eq!(d.root(), Some("b.c".to_string()));
    assert!(d.has_known_suffix());
}

#[test]
fn suffix_from_exception_match_can_reparse_lower() {
    let mut l = PslRuleset::new();
    l.add_plain(labs(&["jp"]));
    l.add_wildcard(labs(&["kobe", "jp"]));
    l.add_exception(labs(&["city", "kobe", "jp"]));
    let d = l.parse_domain_name("foo.city.kobe.jp").unwrap();
    assert_eq!(d.suffix(), "kobe.jp");
    let again = l.parse_domain_name("kobe.jp").unwrap();
    assert_eq!(again.suffix(), "jp");
    assert_eq!(again.root(), Some("kobe.jp".to_string()));
}

#[test]
fn empty_ruleset_uses_default_rule() {
    let l = PslRuleset::new();
    let d = l.parse_domain_name("example.foo").unwrap();
    assert_eq!(d.suffix(), "foo");
    assert_eq!(d.root(), Some("example.foo".to_string()));
    assert!(!d.has_known_suffix());
}

#[test]
fn bare_wildcard_marks_any_tld_known() {
    let mut l = PslRuleset::new();
    l.add_wildcard(labs(&[]));
    let d = l.parse_domain_name("example.foo").unwrap();
    assert_eq!(d.suffix(), "foo");
    assert!(d.has_known_suffix());
}

#[test]
fn wildcard_needs_one_label_beyond_its_literals() {
    let mut l = PslRuleset::new();
    l.add_wildcard(labs(&["ck"]));
    let d = l.parse_domain_name("ck").unwrap();
    assert_eq!(d.suffix(), "ck");
    assert!(!d.has_known_suffix());
}
