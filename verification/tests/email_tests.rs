use addr::email::Host;
use addr::rules::PslRuleset;
use addr::Error;

fn labs(parts: &[&str]) -> Vec<String> {
    parts.iter().map(|s| s.to_string()).collect()
}

fn list() -> PslRuleset {
    let mut l = PslRuleset::new();
    l.add_plain(labs(&["com"]));
    l
}

#[test]
fn simple_email() {
    let em = list().parse_email_address("user@example.com").unwrap();
    assert_eq!(em.user(), "user");
    assert_eq!(em.host_str(), "example.com");
    match em.host() {
        Host::Domain(d) => {
            assert_eq!(d.suffix(), "com");
            assert_eq!(d.root(), Some("example.com".to_string()));
            assert!(d.has_known_suffix());
        }
        Host::Ip(_) => panic!("expected a domain host"),
    }
}

#[test]
fn email_delegates_to_host_domain() {
    let em = list().parse_email_address("user@www.example.com").unwrap();
    assert_eq!(em.suffix(), Some("com".to_string()));
    assert_eq!(em.root(), Some("example.com".to_string()));
    assert!(em.has_known_suffix());
}

#[test]
fn email_ip_host_has_no_suffix() {
    let em = list().parse_email_address("user@[127.0.0.1]").unwrap();
    assert_eq!(em.suffix(), None);
    assert_eq!(em.root(), None);
    assert!(!em.has_known_suffix());
}

#[test]
fn quoted_local_part() {
    let em = list().parse_email_address("\"a b\"@example.com").unwrap();
    assert_eq!(em.user(), "\"a b\"");
    assert_eq!(em.host_str(), "example.com");
}

#[test]
fn quoted_local_part_with_escaped_quote() {
    let em = list().parse_email_address("\"a\\\"b\"@example.com").unwrap();
    assert_eq!(em.user(), "\"a\\\"b\"");
}

#[test]
fn quoted_local_part_with_at_sign() {
    let em = list().parse_email_address("\"a@b\"@example.com").unwrap();
    assert_eq!(em.user(), "\"a@b\"");
    assert_eq!(em.host_str(), "example.com");
}

#[test]
fn unterminated_quote_rejected() {
    assert_eq!(
        list().parse_email_address("\"abc@example.com").unwrap_err(),
        Error::QuoteUnclosed
    );
}

#[test]
fn ipv4_host_accepted() {
    let em = list().parse_email_address("user@[127.0.0.1]").unwrap();
    assert_eq!(em.host_str(), "[127.0.0.1]");
    match em.host() {
        Host::Ip(t) => assert_eq!(t, "[127.0.0.1]"),
        Host::Domain(_) => panic!("expected an address host"),
    }
}

#[test]
fn ipv4_host_boundaries() {
    assert!(list().parse_email_address("u@[255.255.255.255]").is_ok());
    assert!(list().parse_email_address("u@[0.0.0.0]").is_ok());
    assert_eq!(
        list().parse_email_address("u@[256.1.1.1]").unwrap_err(),
        Error::InvalidIpAddr
    );
    assert_eq!(
        list().parse_email_address("u@[1.2.3]").unwrap_err(),
        Error::InvalidIpAddr
    );
    assert_eq!(
        list().parse_email_address("u@[1.2.3.4.5]").unwrap_err(),
        Error::InvalidIpAddr
    );
}

#[test]
fn ipv4_host_out_of_range_rejected() {
    assert_eq!(
        list().parse_email_address("user@[300.1.1.1]").unwrap_err(),
        Error::InvalidIpAddr
    );
}

#[test]
fn ipv4_host_leading_zero_rejected() {
    assert_eq!(
        list().parse_email_address("user@[01.2.3.4]").unwrap_err(),
        Error::InvalidIpAddr
    );
}

#[test]
fn ipv6_host_accepted() {
    assert!(list().parse_email_address("u@[::1]").is_ok());
    assert!(list().parse_email_address("u@[1:2:3:4:5:6:7:8]").is_ok());
    assert!(list().parse_email_address("u@[2001:db8::8a2e:370:7334]").is_ok());
    assert!(list().parse_email_address("u@[::]").is_ok());
    assert!(list().parse_email_address("u@[1::]").is_ok());
}

#[test]
fn ipv6_host_malformed_rejected() {
    assert_eq!(
        list().parse_email_address("u@[:::1]").unwrap_err(),
        Error::InvalidIpAddr
    );
    assert_eq!(
        list().parse_email_address("u@[1:2:3]").unwrap_err(),
        Error::InvalidIpAddr
    );
    assert_eq!(
        list().parse_email_address("u@[1::2::3]").unwrap_err(),
        Error::InvalidIpAddr
    );
    assert_eq!(
        list().parse_email_address("u@[1:2:3:4:5:6:7:8:9]").unwrap_err(),
        Error::InvalidIpAddr
    );
    assert_eq!(
        list().parse_email_address("u@[12345::1]").unwrap_err(),
        Error::InvalidIpAddr
    );
}

#[test]
fn unbracketed_host_is_a_domain() {
    assert_eq!(
        list().parse_email_address("u@1.2.3.4").unwrap_err(),
        Error::NumericTld
    );
}

#[test]
fn missing_at_sign_rejected() {
    assert_eq!(
        list().parse_email_address("userexample.com").unwrap_err(),
        Error::NoAtSign
    );
}

#[test]
fn missing_user_part_rejected() {
    assert_eq!(
        list().parse_email_address("@example.com").unwrap_err(),
        Error::NoUserPart
    );
}

#[test]
fn missing_host_part_rejected() {
    assert_eq!(list().parse_email_address("user@").unwrap_err(), Error::NoHostPart);
}

#[test]
fn email_too_long_rejected() {
    let a = format!("{}@b.com", "a".repeat(249));
    assert_eq!(a.len(), 255);
    assert_eq!(list().parse_email_address(&a).unwrap_err(), Error::EmailTooLong);
}

#[test]
fn local_part_too_long_rejected() {
    let a = format!("{}@example.com", "a".repeat(65));
    assert_eq!(
        list().parse_email_address(&a).unwrap_err(),
        Error::EmailLocalTooLong
    );
}

#[test]
fn local_part_of_64_accepted() {
    let a = format!("{}@example.com", "a".repeat(64));
    assert!(list().parse_email_address(&a).is_ok());
}

#[test]
fn illegal_local_character_rejected() {
    assert_eq!(
        list().parse_email_address("us er@example.com").unwrap_err(),
        Error::IllegalCharacter
    );
}

#[test]
fn host_domain_errors_propagate() {
    assert_eq!(
        list().parse_email_address("user@-a.com").unwrap_err(),
        Error::LabelStartNotAlnum
    );
}
