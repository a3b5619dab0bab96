use addr::rules::PslRuleset;
use addr::Error;

fn labs(parts: &[&str]) -> Vec<String> {
    parts.iter().map(|s| s.to_string()).collect()
}

fn list() -> PslRuleset {
    let mut l = PslRuleset::new();
    l.add_plain(labs(&["com"]));
    l.add_wildcard(labs(&["ck"]));
    l
}

#[test]
fn service_label_with_terminator() {
    let d = list().parse_dns_name("_tcp.example.com.").unwrap();
    assert_eq!(d.suffix(), Some("com.".to_string()));
    assert!(d.has_known_suffix());
    assert_eq!(d.as_str(), "_tcp.example.com.");
}

#[test]
fn dns_without_terminator() {
    let d = list().parse_dns_name("example.com").unwrap();
    assert_eq!(d.suffix(), Some("com".to_string()));
    assert!(d.has_known_suffix());
}

#[test]
fn dns_root_has_no_suffix() {
    let d = list().parse_dns_name(".").unwrap();
    assert_eq!(d.suffix(), None);
    assert!(!d.has_known_suffix());
}

#[test]
fn dns_allows_hyphen_edges() {
    let d = list().parse_dns_name("-a-.com").unwrap();
    assert_eq!(d.suffix(), Some("com".to_string()));
}

#[test]
fn dns_allows_numeric_final_label() {
    let d = list().parse_dns_name("1.2.3.4").unwrap();
    assert_eq!(d.suffix(), Some("4".to_string()));
    assert!(!d.has_known_suffix());
}

#[test]
fn dns_empty_rejected() {
    assert_eq!(list().parse_dns_name("").unwrap_err(), Error::EmptyName);
}

#[test]
fn dns_empty_label_rejected() {
    assert_eq!(list().parse_dns_name("a..com").unwrap_err(), Error::EmptyLabel);
}

#[test]
fn dns_double_terminator_rejected() {
    assert_eq!(list().parse_dns_name("example.com..").unwrap_err(), Error::EmptyLabel);
}

#[test]
fn dns_inner_underscore_rejected() {
    assert_eq!(list().parse_dns_name("a_b.com").unwrap_err(), Error::IllegalCharacter);
}

#[test]
fn dns_label_too_long_rejected() {
    let name = format!("{}.com.", "a".repeat(64));
    assert_eq!(list().parse_dns_name(&name).unwrap_err(), Error::LabelTooLong);
}

#[test]
fn dns_name_too_long_excludes_terminator() {
    let label = "a".repeat(63);
    let name = format!("{0}.{0}.{0}.{1}.", label, "a".repeat(61));
    assert_eq!(name.len(), 254);
    assert!(list().parse_dns_name(&name).is_ok());
    let too_long = format!("{0}.{0}.{0}.{1}.", label, "a".repeat(62));
    assert_eq!(
        list().parse_dns_name(&too_long).unwrap_err(),
        Error::NameTooLong
    );
}
