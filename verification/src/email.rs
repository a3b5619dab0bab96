//! The email parser: tokenizes the local part (unquoted atoms or a single
//! quoted span with escapes), locates the separating at sign, and hands the
//! host part to the domain parser or the IP-literal check.

use vstd::prelude::*;

verus! {

use vstd::string::StrSliceExecFns;
use vstd::string::StringExecFns;
use crate::Error;
use crate::domain::{Domain, domain_error};
use crate::ip::{check_ip_literal, ip_literal_ok};
use crate::matcher::{opt_as_int, spec_suffix_match};
use crate::rules::PslRuleset;
use crate::text::is_alnum_c;

/// The characters an unquoted local-part atom may contain.
pub open spec fn is_atom_c(c: char) -> bool {
    ||| is_alnum_c(c)
    ||| c == '.'
    ||| c == '!'
    ||| c == '#'
    ||| c == '$'
    ||| c == '%'
    ||| c == '&'
    ||| c == '\''
    ||| c == '*'
    ||| c == '+'
    ||| c == '-'
    ||| c == '/'
    ||| c == '='
    ||| c == '?'
    ||| c == '^'
    ||| c == '_'
    ||| c == '`'
    ||| c == '{'
    ||| c == '|'
    ||| c == '}'
    ||| c == '~'
}

/// The position of the first unescaped quote at or after `i`; inside a
/// quoted span a backslash escapes the following character.
pub open spec fn quote_scan(s: Seq<char>, i: int) -> Option<int>
    decreases s.len() - i,
{
    if i < 0 || i >= s.len() {
        None
    } else if s[i] == '"' {
        Some(i)
    } else if s[i] == '\\' {
        if i + 1 < s.len() {
            quote_scan(s, i + 2)
        } else {
            None
        }
    } else {
        quote_scan(s, i + 1)
    }
}

/// The unescaped length of the span `[i, end)`: an escaped character
/// counts as one.
pub open spec fn unesc_len(s: Seq<char>, i: int, end: int) -> int
    decreases end - i,
{
    if i >= end {
        0
    } else if s[i] == '\\' {
        if i + 2 <= end {
            1 + unesc_len(s, i + 2, end)
        } else {
            1
        }
    } else {
        1 + unesc_len(s, i + 1, end)
    }
}

/// The position of the first at sign at or after `i`.
pub open spec fn at_pos(s: Seq<char>, i: int) -> Option<int>
    decreases s.len() - i,
{
    if i < 0 || i >= s.len() {
        None
    } else if s[i] == '@' {
        Some(i)
    } else {
        at_pos(s, i + 1)
    }
}

/// The position of the separating at sign, when tokenization finds one:
/// for a quoted local part, the character right after the closing quote;
/// otherwise the first at sign.
pub open spec fn email_at_index(s: Seq<char>) -> Option<int> {
    if s.len() == 0 {
        None
    } else if s[0] == '"' {
        match quote_scan(s, 1) {
            None => None,
            Some(q) => if q + 1 < s.len() && s[q + 1] == '@' {
                Some(q + 1)
            } else {
                None
            },
        }
    } else {
        at_pos(s, 0)
    }
}

/// What the host part must be: non-empty, and either a bracketed IP
/// literal or a domain name.
pub open spec fn host_error(h: Seq<char>) -> Option<Error> {
    if h.len() == 0 {
        Some(Error::NoHostPart)
    } else if h[0] == '[' {
        if h.len() >= 2 && h[h.len() - 1] == ']' && ip_literal_ok(h.subrange(1, h.len() - 1)) {
            None
        } else {
            Some(Error::InvalidIpAddr)
        }
    } else {
        domain_error(h)
    }
}

/// Everything the email parser checks, in order; `None` means the text is
/// a well-formed email address.
pub open spec fn email_error(s: Seq<char>) -> Option<Error> {
    if s.len() == 0 {
        Some(Error::EmptyName)
    } else if s.len() > 254 {
        Some(Error::EmailTooLong)
    } else if s[0] == '"' {
        match quote_scan(s, 1) {
            None => Some(Error::QuoteUnclosed),
            Some(q) => {
                if !(q + 1 < s.len() && s[q + 1] == '@') {
                    Some(Error::NoAtSign)
                } else if unesc_len(s, 1, q) == 0 {
                    Some(Error::NoUserPart)
                } else if unesc_len(s, 1, q) > 64 {
                    Some(Error::EmailLocalTooLong)
                } else {
                    host_error(s.skip(q + 2))
                }
            },
        }
    } else {
        match at_pos(s, 0) {
            None => Some(Error::NoAtSign),
            Some(a) => {
                if a == 0 {
                    Some(Error::NoUserPart)
                } else if exists|i: int| 0 <= i < a && !is_atom_c(#[trigger] s[i]) {
                    Some(Error::IllegalCharacter)
                } else if a > 64 {
                    Some(Error::EmailLocalTooLong)
                } else {
                    host_error(s.skip(a + 1))
                }
            },
        }
    }
}

/// An email's host: a parsed domain name, or a bracketed IP literal kept
/// as its text.
#[derive(Debug)]
pub enum Host {
    Domain(Domain),
    Ip(String),
}

/// A validated email address: its local part as written, and its host.
#[derive(Debug)]
pub struct Email {
    local: String,
    host: Host,
}

impl Email {
    /// The local part, exactly as written (quotes and escapes intact).
    pub closed spec fn spec_local(&self) -> Seq<char> {
        self.local@
    }

    pub closed spec fn spec_host(&self) -> Host {
        self.host
    }

    /// A parsed email is intact: a domain host is a well-formed domain, an
    /// IP host is a well-formed bracketed literal.
    pub open spec fn wf(&self) -> bool {
        match self.spec_host() {
            Host::Domain(d) => d.wf(),
            Host::Ip(t) => t@.len() >= 2 && t@[0] == '[' && t@[t@.len() - 1] == ']'
                && ip_literal_ok(t@.subrange(1, t@.len() - 1)),
        }
    }

    /// The local part as written.
    pub fn user(&self) -> (r: &str)
        ensures
            r@ == self.spec_local(),
    {
        self.local.as_str()
    }

    /// The host.
    pub fn host(&self) -> (r: &Host)
        ensures
            *r == self.spec_host(),
    {
        &self.host
    }

    /// The public suffix of the host, when the host is a domain name.
    pub fn suffix(&self) -> (r: Option<String>)
        requires
            self.wf(),
        ensures
            match self.spec_host() {
                Host::Domain(d) => r matches Some(x) && x@ == d.spec_suffix(),
                Host::Ip(_) => r is None,
            },
    {
        match &self.host {
            Host::Domain(d) => Some(d.suffix()),
            Host::Ip(_) => None,
        }
    }

    /// The registrable root of the host, when the host is a domain name
    /// with one: the suffix plus exactly one further label.
    pub fn root(&self) -> (r: Option<String>)
        requires
            self.wf(),
        ensures
            match self.spec_host() {
                Host::Domain(d) => match r {
                    Some(x) => d.spec_labels().len() > d.spec_suffix_num() && x@
                        == crate::text::join_labels(
                        d.spec_labels().skip(d.spec_labels().len() - d.spec_suffix_num() - 1),
                    ),
                    None => d.spec_labels().len() == d.spec_suffix_num(),
                },
                Host::Ip(_) => r is None,
            },
    {
        match &self.host {
            Host::Domain(d) => d.root(),
            Host::Ip(_) => None,
        }
    }

    /// Whether the host is a domain whose suffix an explicit rule
    /// determined.
    pub fn has_known_suffix(&self) -> (b: bool)
        ensures
            b == match self.spec_host() {
                Host::Domain(d) => d.spec_known(),
                Host::Ip(_) => false,
            },
    {
        match &self.host {
            Host::Domain(d) => d.has_known_suffix(),
            Host::Ip(_) => false,
        }
    }

    /// The host's text: the domain as given, or the bracketed IP literal.
    pub fn host_str(&self) -> (r: &str)
        ensures
            match self.spec_host() {
                Host::Domain(d) => r@ == d.spec_text(),
                Host::Ip(t) => r@ == t@,
            },
    {
        match &self.host {
            Host::Domain(d) => d.as_str(),
            Host::Ip(t) => t.as_str(),
        }
    }
}

pub proof fn lemma_quote_scan_range(s: Seq<char>, i: int)
    requires
        0 <= i,
    ensures
        quote_scan(s, i) matches Some(q) ==> i <= q < s.len(),
    decreases s.len() - i,
{
    if i < s.len() {
        if s[i] == '\\' {
            if i + 1 < s.len() {
                lemma_quote_scan_range(s, i + 2);
            }
        } else if s[i] != '"' {
            lemma_quote_scan_range(s, i + 1);
        }
    }
}

pub proof fn lemma_at_pos_range(s: Seq<char>, i: int)
    requires
        0 <= i,
    ensures
        at_pos(s, i) matches Some(a) ==> i <= a < s.len(),
    decreases s.len() - i,
{
    if i < s.len() && s[i] != '@' {
        lemma_at_pos_range(s, i + 1);
    }
}

fn find_quote_end(s: &str) -> (r: Option<usize>)
    requires
        s@.len() >= 1,
    ensures
        opt_as_int(r) == quote_scan(s@, 1),
{
    let n = s.unicode_len();
    let mut i: usize = 1;
    while i < n
        invariant
            1 <= i <= n + 1,
            n == s@.len(),
            quote_scan(s@, 1) == quote_scan(s@, i as int),
        decreases n + 2 - i,
    {
        let c = s.get_char(i);
        if c == '"' {
            return Some(i);
        }
        if c == '\\' {
            if i + 1 < n {
                i = i + 2;
            } else {
                return None;
            }
        } else {
            i = i + 1;
        }
    }
    None
}

fn unesc_count(s: &str, end: usize) -> (u: usize)
    requires
        1 <= end <= s@.len(),
    ensures
        u as int == unesc_len(s@, 1, end as int),
{
    let mut acc: usize = 0;
    let mut i: usize = 1;
    while i < end
        invariant
            1 <= i <= end,
            end <= s@.len(),
            acc <= i,
            acc + unesc_len(s@, i as int, end as int) == unesc_len(s@, 1, end as int),
        decreases end - i,
    {
        let c = s.get_char(i);
        if c == '\\' {
            if end - i >= 2 {
                acc = acc + 1;
                i = i + 2;
            } else {
                acc = acc + 1;
                i = end;
            }
        } else {
            acc = acc + 1;
            i = i + 1;
        }
    }
    acc
}

fn find_at(s: &str) -> (r: Option<usize>)
    ensures
        opt_as_int(r) == at_pos(s@, 0),
{
    let n = s.unicode_len();
    let mut i: usize = 0;
    while i < n
        invariant
            0 <= i <= n,
            n == s@.len(),
            at_pos(s@, 0) == at_pos(s@, i as int),
        decreases n - i,
    {
        if s.get_char(i) == '@' {
            return Some(i);
        }
        i = i + 1;
    }
    None
}

fn is_atom_char(c: char) -> (b: bool)
    ensures
        b == is_atom_c(c),
{
    let u = c as u32;
    (48 <= u && u <= 57) || (65 <= u && u <= 90) || (97 <= u && u <= 122) || c == '.' || c == '!'
        || c == '#' || c == '$' || c == '%' || c == '&' || c == '\'' || c == '*' || c == '+'
        || c == '-' || c == '/' || c == '=' || c == '?' || c == '^' || c == '_' || c == '`'
        || c == '{' || c == '|' || c == '}' || c == '~'
}

impl PslRuleset {
    /// Parses an email address: tokenizes the local part, locates the
    /// separating at sign, and validates the host as a bracketed IP
    /// literal or as a domain name under this ruleset.
    pub fn parse_email_address(&self, addr: &str) -> (res: Result<Email, Error>)
        requires
            self.wf(),
        ensures
            match res {
                Ok(em) => {
                    &&& email_error(addr@) is None
                    &&& em.wf()
                    &&& email_at_index(addr@) matches Some(a) && em.spec_local() == addr@.take(a)
                        && (match em.spec_host() {
                        Host::Domain(d) => {
                            &&& d.spec_text() == addr@.skip(a + 1)
                            &&& (d.spec_suffix_num(), d.spec_known()) == spec_suffix_match(
                                self@,
                                d.spec_labels(),
                            )
                        },
                        Host::Ip(t) => t@ == addr@.skip(a + 1),
                    })
                },
                Err(e) => email_error(addr@) == Some(e),
            },
    {
        let n = addr.unicode_len();
        if n == 0 {
            return Err(Error::EmptyName);
        }
        if n > 254 {
            return Err(Error::EmailTooLong);
        }
        let at: usize;
        if addr.get_char(0) == '"' {
            let q = match find_quote_end(addr) {
                None => {
                    return Err(Error::QuoteUnclosed);
                },
                Some(q) => q,
            };
            proof {
                lemma_quote_scan_range(addr@, 1);
            }
            if !(q + 1 < n && addr.get_char(q + 1) == '@') {
                return Err(Error::NoAtSign);
            }
            let u = unesc_count(addr, q);
            if u == 0 {
                return Err(Error::NoUserPart);
            }
            if u > 64 {
                return Err(Error::EmailLocalTooLong);
            }
            at = q + 1;
        } else {
            let a = match find_at(addr) {
                None => {
                    return Err(Error::NoAtSign);
                },
                Some(a) => a,
            };
            proof {
                lemma_at_pos_range(addr@, 0);
            }
            if a == 0 {
                return Err(Error::NoUserPart);
            }
            let mut i: usize = 0;
            while i < a
                invariant
                    0 <= i <= a,
                    a < n == addr@.len(),
                    1 <= n <= 254,
                    addr@[0] != '"',
                    at_pos(addr@, 0) == Some(a as int),
                    a >= 1,
                    forall|j: int| 0 <= j < i ==> is_atom_c(#[trigger] addr@[j]),
                decreases a - i,
            {
                if !is_atom_char(addr.get_char(i)) {
                    proof {
                        assert(!is_atom_c(addr@[i as int]));
                    }
                    return Err(Error::IllegalCharacter);
                }
                i = i + 1;
            }
            if a > 64 {
                return Err(Error::EmailLocalTooLong);
            }
            at = a;
        }
        let host_text: &str = addr.substring_char(at + 1, n);
        let ghost h = addr@.skip(at + 1);
        proof {
            assert(host_text@ =~= h);
        }
        let hl = n - (at + 1);
        if hl == 0 {
            return Err(Error::NoHostPart);
        }
        let local = String::from_str(addr.substring_char(0, at));
        proof {
            assert(local@ =~= addr@.take(at as int));
        }
        if host_text.get_char(0) == '[' {
            if hl < 2 || host_text.get_char(hl - 1) != ']' {
                return Err(Error::InvalidIpAddr);
            }
            let inner = host_text.substring_char(1, hl - 1);
            if !check_ip_literal(inner) {
                return Err(Error::InvalidIpAddr);
            }
            let em = Email { local, host: Host::Ip(String::from_str(host_text)) };
            Ok(em)
        } else {
            match self.parse_domain_name(host_text) {
                Ok(d) => {
                    let em = Email { local, host: Host::Domain(d) };
                    Ok(em)
                },
                Err(e) => Err(e),
            }
        }
    }
}

} // verus!
