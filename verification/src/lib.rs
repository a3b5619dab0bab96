//! Validation and decomposition of internet names: domain names, DNS
//! resource-record names and email addresses, together with a longest-match
//! public-suffix engine over a caller-supplied ruleset.

use vstd::prelude::*;

pub mod dns;
pub mod domain;
pub mod email;
pub mod ip;
pub mod label;
pub mod matcher;
pub mod rules;
pub mod text;

verus! {

/// The reasons a name is rejected.
#[derive(Copy, Clone, Eq, PartialEq, Ord, PartialOrd, Hash, Debug)]
#[non_exhaustive]
pub enum Error {
    NameTooLong,
    EmptyLabel,
    EmailLocalTooLong,
    EmailTooLong,
    EmptyName,
    IllegalCharacter,
    InvalidDomain,
    InvalidIpAddr,
    LabelEndNotAlnum,
    LabelStartNotAlnum,
    LabelTooLong,
    NoAtSign,
    NoHostPart,
    NoUserPart,
    NumericTld,
    QuoteUnclosed,
    TooManyLabels,
}

impl Error {
    /// The human-readable description of the error.
    pub fn message(&self) -> (r: &'static str)
        ensures
            r@ == match *self {
                Error::NameTooLong => "name too long"@,
                Error::EmptyLabel => "domain/email contains empty label"@,
                Error::EmailLocalTooLong => "email local too long"@,
                Error::EmailTooLong => "email too long"@,
                Error::EmptyName => "name is empty"@,
                Error::IllegalCharacter => "domain contains illegal characters"@,
                Error::InvalidDomain => "invalid domain name"@,
                Error::InvalidIpAddr => "email has an invalid ip address"@,
                Error::LabelEndNotAlnum => "label does not start with an alphanumeric character"@,
                Error::LabelStartNotAlnum => "label does not end with a alphanumeric character"@,
                Error::LabelTooLong => "label too long"@,
                Error::NoAtSign => "email address has no at sign"@,
                Error::NoHostPart => "email address has no host part"@,
                Error::NoUserPart => "email address has no user part"@,
                Error::NumericTld => "numeric TLD"@,
                Error::QuoteUnclosed => "email has an unclosed quotation mark"@,
                Error::TooManyLabels => "too many labels"@,
            },
    {
        match *self {
            Error::NameTooLong => "name too long",
            Error::EmptyLabel => "domain/email contains empty label",
            Error::EmailLocalTooLong => "email local too long",
            Error::EmailTooLong => "email too long",
            Error::EmptyName => "name is empty",
            Error::IllegalCharacter => "domain contains illegal characters",
            Error::InvalidDomain => "invalid domain name",
            Error::InvalidIpAddr => "email has an invalid ip address",
            Error::LabelEndNotAlnum => "label does not start with an alphanumeric character",
            Error::LabelStartNotAlnum => "label does not end with a alphanumeric character",
            Error::LabelTooLong => "label too long",
            Error::NoAtSign => "email address has no at sign",
            Error::NoHostPart => "email address has no host part",
            Error::NoUserPart => "email address has no user part",
            Error::NumericTld => "numeric TLD",
            Error::QuoteUnclosed => "email has an unclosed quotation mark",
            Error::TooManyLabels => "too many labels",
        }
    }
}

} // verus!
