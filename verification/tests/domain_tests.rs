use addr::rules::PslRuleset;
use addr::Error;

fn labs(parts: &[&str]) -> Vec<String> {
    parts.iter().map(|s| s.to_string()).collect()
}

fn list() -> PslRuleset {
    let mut l = PslRuleset::new();
    l.add_plain(labs(&["com"]));
    l.add_plain(labs(&["uk", "com"]));
    l.add_plain(labs(&["cn"]));
    l.add_plain(labs(&["xn--55qx5d", "cn"]));
    l.add_wildcard(labs(&["ck"]));
    l.add_exception(labs(&["www", "ck"]));
    l
}

#[test]
fn www_example_com() {
    let d = list().parse_domain_name("www.example.com").unwrap();
    assert_eq!(d.suffix(), "com");
    assert_eq!(d.root(), Some("example.com".to_string()));
    assert!(d.has_known_suffix());
    assert_eq!(d.as_str(), "www.example.com");
}

#[test]
fn punycode_domain() {
    let d = list().parse_domain_name("www.xn--85x722f.xn--55qx5d.cn").unwrap();
    assert_eq!(d.suffix(), "xn--55qx5d.cn");
    assert_eq!(d.root(), Some("xn--85x722f.xn--55qx5d.cn".to_string()));
    assert!(d.has_known_suffix());
}

#[test]
fn uk_com_two_label_suffix() {
    let d = list().parse_domain_name("a.b.example.uk.com").unwrap();
    assert_eq!(d.suffix(), "uk.com");
    assert_eq!(d.root(), Some("example.uk.com".to_string()));
    assert!(d.has_known_suffix());
}

#[test]
fn single_label_is_its_own_suffix() {
    let d = list().parse_domain_name("com").unwrap();
    assert_eq!(d.suffix(), "com");
    assert_eq!(d.root(), None);
    assert!(d.has_known_suffix());
}

#[test]
fn unknown_tld_falls_back_to_default() {
    let d = list().parse_domain_name("example.zz").unwrap();
    assert_eq!(d.suffix(), "zz");
    assert_eq!(d.root(), Some("example.zz".to_string()));
    assert!(!d.has_known_suffix());
}

#[test]
fn matching_is_case_insensitive() {
    let d = list().parse_domain_name("WWW.Example.COM").unwrap();
    assert_eq!(d.suffix(), "COM");
    assert_eq!(d.root(), Some("Example.COM".to_string()));
    assert!(d.has_known_suffix());
}

#[test]
fn wildcard_covers_one_more_label() {
    let d = list().parse_domain_name("foo.bar.ck").unwrap();
    assert_eq!(d.suffix(), "bar.ck");
    assert_eq!(d.root(), Some("foo.bar.ck".to_string()));
    assert!(d.has_known_suffix());
}

#[test]
fn exception_carves_out_registrable_name() {
    let d = list().parse_domain_name("www.ck").unwrap();
    assert_eq!(d.suffix(), "ck");
    assert_eq!(d.root(), Some("www.ck".to_string()));
    assert!(d.has_known_suffix());
}

#[test]
fn suffix_reparses_to_itself() {
    let d = list().parse_domain_name("a.b.example.uk.com").unwrap();
    let s = d.suffix();
    let again = list().parse_domain_name(&s).unwrap();
    assert_eq!(again.root(), None);
    assert_eq!(again.suffix(), s);
}

#[test]
fn empty_name_rejected() {
    assert_eq!(list().parse_domain_name("").unwrap_err(), Error::EmptyName);
}

#[test]
fn name_too_long_rejected() {
    let name = format!("{}.com", "a".repeat(250));
    assert_eq!(list().parse_domain_name(&name).unwrap_err(), Error::NameTooLong);
}

#[test]
fn label_of_64_rejected() {
    let name = format!("{}.com", "a".repeat(64));
    assert_eq!(list().parse_domain_name(&name).unwrap_err(), Error::LabelTooLong);
}

#[test]
fn label_of_63_accepted() {
    let name = format!("{}.com", "a".repeat(63));
    assert!(list().parse_domain_name(&name).is_ok());
}

#[test]
fn leading_hyphen_rejected() {
    assert_eq!(
        list().parse_domain_name("-a.com").unwrap_err(),
        Error::LabelStartNotAlnum
    );
}

#[test]
fn trailing_hyphen_rejected() {
    assert_eq!(
        list().parse_domain_name("a-.com").unwrap_err(),
        Error::LabelEndNotAlnum
    );
}

#[test]
fn inner_underscore_rejected() {
    assert_eq!(
        list().parse_domain_name("a_b.com").unwrap_err(),
        Error::IllegalCharacter
    );
}

#[test]
fn non_ascii_rejected() {
    assert_eq!(
        list().parse_domain_name("a\u{98DF}b.com").unwrap_err(),
        Error::IllegalCharacter
    );
}

#[test]
fn numeric_tld_rejected() {
    assert_eq!(
        list().parse_domain_name("example.123").unwrap_err(),
        Error::NumericTld
    );
}

#[test]
fn empty_label_rejected() {
    assert_eq!(list().parse_domain_name("a..com").unwrap_err(), Error::EmptyLabel);
}

#[test]
fn trailing_dot_rejected_for_domains() {
    assert_eq!(
        list().parse_domain_name("example.com.").unwrap_err(),
        Error::EmptyLabel
    );
}

#[test]
fn suffix_label_count_reported() {
    let d = list().parse_domain_name("a.b.example.uk.com").unwrap();
    assert_eq!(d.suffix_label_count(), 2);
}
