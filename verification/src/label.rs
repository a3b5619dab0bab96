//! The label validator: per-label length and character-class rules, in
//! strict (plain-domain) and relaxed (DNS) mode.

use vstd::prelude::*;

verus! {

use vstd::string::StrSliceExecFns;
use crate::Error;
use crate::text::{is_alnum_c, is_digit_c};

/// The characters a domain label may contain: ASCII alphanumerics and the
/// hyphen. Everything else — the separator, punctuation, and any character
/// beyond ASCII — is illegal.
pub open spec fn label_char_ok(c: char) -> bool {
    is_alnum_c(c) || c == '-'
}

/// What the label validator reports for one label; `None` when the label is
/// acceptable. Strict mode is for plain domain labels. The relaxed mode,
/// for DNS labels, permits one leading underscore (service labels) and
/// drops the requirement that the label begin and end with an alphanumeric
/// character.
pub open spec fn label_error_spec(l: Seq<char>, strict: bool) -> Option<Error> {
    if l.len() == 0 {
        Some(Error::EmptyLabel)
    } else if l.len() > 63 {
        Some(Error::LabelTooLong)
    } else if strict {
        if !is_alnum_c(l[0]) {
            Some(Error::LabelStartNotAlnum)
        } else if !is_alnum_c(l[l.len() - 1]) {
            Some(Error::LabelEndNotAlnum)
        } else if exists|i: int| 0 <= i < l.len() && !label_char_ok(#[trigger] l[i]) {
            Some(Error::IllegalCharacter)
        } else {
            None
        }
    } else {
        if exists|i: int|
            0 <= i < relaxed_body(l).len() && !label_char_ok(#[trigger] relaxed_body(l)[i]) {
            Some(Error::IllegalCharacter)
        } else {
            None
        }
    }
}

/// The part of a relaxed-mode label that the character rule applies to:
/// everything but a single leading underscore.
pub open spec fn relaxed_body(l: Seq<char>) -> Seq<char> {
    if l.len() > 0 && l[0] == '_' {
        l.drop_first()
    } else {
        l
    }
}

pub fn is_alnum(c: char) -> (b: bool)
    ensures
        b == is_alnum_c(c),
{
    let u = c as u32;
    (48 <= u && u <= 57) || (65 <= u && u <= 90) || (97 <= u && u <= 122)
}

pub fn is_digit(c: char) -> (b: bool)
    ensures
        b == is_digit_c(c),
{
    let u = c as u32;
    48 <= u && u <= 57
}

fn label_char_ok_exec(c: char) -> (b: bool)
    ensures
        b == label_char_ok(c),
{
    is_alnum(c) || c == '-'
}

/// Validates one textual label.
pub fn check_label(l: &str, strict: bool) -> (r: Option<Error>)
    ensures
        r == label_error_spec(l@, strict),
{
    let n = l.unicode_len();
    if n == 0 {
        return Some(Error::EmptyLabel);
    }
    if n > 63 {
        return Some(Error::LabelTooLong);
    }
    if strict {
        if !is_alnum(l.get_char(0)) {
            return Some(Error::LabelStartNotAlnum);
        }
        if !is_alnum(l.get_char(n - 1)) {
            return Some(Error::LabelEndNotAlnum);
        }
        let mut i: usize = 0;
        while i < n
            invariant
                strict,
                0 <= i <= n,
                n == l@.len(),
                1 <= n <= 63,
                is_alnum_c(l@[0]),
                is_alnum_c(l@[n - 1]),
                forall|j: int| 0 <= j < i ==> label_char_ok(#[trigger] l@[j]),
            decreases n - i,
        {
            if !label_char_ok_exec(l.get_char(i)) {
                proof {
                    assert(!label_char_ok(l@[i as int]));
                    assert(exists|j: int| 0 <= j < l@.len() && !label_char_ok(#[trigger] l@[j]));
                }
                return Some(Error::IllegalCharacter);
            }
            i = i + 1;
        }
        None
    } else {
        let start: usize = if l.get_char(0) == '_' {
            1
        } else {
            0
        };
        let ghost body = relaxed_body(l@);
        let mut i: usize = start;
        while i < n
            invariant
                !strict,
                start <= i <= n,
                n == l@.len(),
                1 <= n <= 63,
                start == (if l@[0] == '_' {
                    1int
                } else {
                    0int
                }),
                body == relaxed_body(l@),
                forall|j: int| 0 <= j < i - start ==> label_char_ok(#[trigger] body[j]),
            decreases n - i,
        {
            if !label_char_ok_exec(l.get_char(i)) {
                proof {
                    assert(body[i - start] == l@[i as int]);
                    assert(!label_char_ok(body[i - start]));
                    assert(!label_char_ok(relaxed_body(l@)[i - start]));
                }
                return Some(Error::IllegalCharacter);
            }
            i = i + 1;
        }
        proof {
            assert(forall|j: int| 0 <= j < body.len() ==> label_char_ok(#[trigger] body[j]));
        }
        None
    }
}

/// Whether every character of the label is a decimal digit.
pub open spec fn all_digits(l: Seq<char>) -> bool {
    forall|i: int| 0 <= i < l.len() ==> is_digit_c(#[trigger] l[i])
}

/// Whether a textual label consists entirely of decimal digits.
pub fn check_all_digits(l: &str) -> (b: bool)
    ensures
        b == all_digits(l@),
{
    let n = l.unicode_len();
    let mut i: usize = 0;
    while i < n
        invariant
            0 <= i <= n,
            n == l@.len(),
            forall|j: int| 0 <= j < i ==> is_digit_c(#[trigger] l@[j]),
        decreases n - i,
    {
        if !is_digit(l.get_char(i)) {
            return false;
        }
        i = i + 1;
    }
    true
}

} // verus!
