use addr::Error;

#[test]
fn error_messages() {
    assert_eq!(Error::NameTooLong.message(), "name too long");
    assert_eq!(Error::EmptyName.message(), "name is empty");
    assert_eq!(Error::EmptyLabel.message(), "domain/email contains empty label");
    assert_eq!(Error::NumericTld.message(), "numeric TLD");
    assert_eq!(
        Error::QuoteUnclosed.message(),
        "email has an unclosed quotation mark"
    );
    assert_eq!(Error::TooManyLabels.message(), "too many labels");
}

#[test]
fn errors_compare_and_copy() {
    let e = Error::NoAtSign;
    let f = e;
    assert_eq!(e, f);
    assert!(Error::NoAtSign != Error::NoHostPart);
}
