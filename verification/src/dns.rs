//! The DNS name parser: a relaxed variant of the domain parser that permits
//! one trailing terminator separator and underscore-prefixed service
//! labels, and does not require a registrable root.

use vstd::prelude::*;

verus! {

use vstd::string::StrSliceExecFns;
use vstd::string::StringExecFns;
use crate::Error;
use crate::domain::{any_empty, labels_error_from};
use crate::label::check_label;
use crate::matcher::spec_suffix_match;
use crate::rules::PslRuleset;
use crate::text::{join_labels, join_range, sep_char, split_on, split_str, str_views};

/// Whether the name carries the trailing terminator separator.
pub open spec fn is_fqdn(s: Seq<char>) -> bool {
    s.len() > 0 && s[s.len() - 1] == sep_char()
}

/// The name with a single trailing terminator, if any, removed.
pub open spec fn dns_core(s: Seq<char>) -> Seq<char> {
    if is_fqdn(s) {
        s.drop_last()
    } else {
        s
    }
}

/// The DNS root name: a single terminator and nothing else — the one DNS
/// name without any label.
pub open spec fn root_name(s: Seq<char>) -> bool {
    s.len() == 1 && is_fqdn(s)
}

/// Everything the DNS name parser checks, in order; `None` means the text
/// is a well-formed DNS name. Against the plain domain parser: one
/// trailing terminator is allowed (and excluded from the length check),
/// labels are validated in relaxed mode, and the all-numeric final label is
/// not rejected.
pub open spec fn dns_error(s: Seq<char>) -> Option<Error> {
    if s.len() == 0 {
        Some(Error::EmptyName)
    } else if root_name(s) {
        None
    } else if dns_core(s).len() > 253 {
        Some(Error::NameTooLong)
    } else if any_empty(split_on(dns_core(s), sep_char())) {
        Some(Error::EmptyLabel)
    } else if split_on(dns_core(s), sep_char()).len() > 127 {
        Some(Error::TooManyLabels)
    } else {
        labels_error_from(split_on(dns_core(s), sep_char()), 0, false)
    }
}

/// A validated DNS name with its computed public-suffix boundary.
#[derive(Debug)]
pub struct DnsName {
    text: String,
    labels: Vec<String>,
    fqdn: bool,
    suffix_num: usize,
    known: bool,
}

impl DnsName {
    /// The name's text, as given to the parser.
    pub closed spec fn spec_text(&self) -> Seq<char> {
        self.text@
    }

    /// The name's labels, the trailing terminator excluded.
    pub closed spec fn spec_labels(&self) -> Seq<Seq<char>> {
        str_views(self.labels@)
    }

    pub closed spec fn spec_fqdn(&self) -> bool {
        self.fqdn
    }

    /// How many trailing labels form the public suffix.
    pub closed spec fn spec_suffix_num(&self) -> int {
        self.suffix_num as int
    }

    /// Whether an explicit rule determined the suffix.
    pub closed spec fn spec_known(&self) -> bool {
        self.known
    }

    /// A parsed DNS name is intact: its text is well formed, its labels are
    /// the text's labels without the terminator, and the suffix boundary
    /// lies within them; the root name alone has no labels and no suffix.
    pub open spec fn wf(&self) -> bool {
        &&& dns_error(self.spec_text()) is None
        &&& self.spec_fqdn() == is_fqdn(self.spec_text())
        &&& (root_name(self.spec_text()) ==> self.spec_labels().len() == 0
            && self.spec_suffix_num() == 0 && !self.spec_known())
        &&& (!root_name(self.spec_text()) ==> self.spec_labels() == split_on(
            dns_core(self.spec_text()),
            sep_char(),
        ) && 1 <= self.spec_suffix_num() <= self.spec_labels().len())
    }

    /// The full name as given.
    pub fn as_str(&self) -> (r: &str)
        ensures
            r@ == self.spec_text(),
    {
        self.text.as_str()
    }

    /// Whether an explicit rule of the ruleset determined the suffix.
    pub fn has_known_suffix(&self) -> (b: bool)
        ensures
            b == self.spec_known(),
    {
        self.known
    }

    /// The public suffix, the terminator preserved when the name carries
    /// one; `None` for the one DNS name without any label.
    pub fn suffix(&self) -> (r: Option<String>)
        requires
            self.wf(),
        ensures
            match r {
                None => self.spec_labels().len() == 0,
                Some(x) => self.spec_labels().len() >= 1 && x@ == join_labels(
                    self.spec_labels().skip(self.spec_labels().len() - self.spec_suffix_num()),
                ) + (if self.spec_fqdn() {
                    seq![sep_char()]
                } else {
                    Seq::<char>::empty()
                }),
            },
    {
        if self.labels.len() == 0 {
            return None;
        }
        let mut r = join_range(&self.labels, self.labels.len() - self.suffix_num);
        if self.fqdn {
            r.append(".");
            proof {
                reveal_strlit(".");
                assert("."@ =~= seq![sep_char()]);
            }
        } else {
            proof {
                assert(r@ =~= r@ + Seq::<char>::empty());
            }
        }
        Some(r)
    }
}

impl PslRuleset {
    /// Parses a DNS resource-record name: permits one trailing terminator
    /// and underscore-prefixed service labels, validates every label in
    /// relaxed mode, and computes the public-suffix boundary under this
    /// ruleset.
    pub fn parse_dns_name(&self, name: &str) -> (res: Result<DnsName, Error>)
        requires
            self.wf(),
        ensures
            match res {
                Ok(d) => {
                    &&& dns_error(name@) is None
                    &&& d.wf()
                    &&& d.spec_text() == name@
                    &&& (!root_name(name@) ==> (d.spec_suffix_num(), d.spec_known())
                        == spec_suffix_match(self@, d.spec_labels()))
                },
                Err(e) => dns_error(name@) == Some(e),
            },
    {
        let n = name.unicode_len();
        if n == 0 {
            return Err(Error::EmptyName);
        }
        let fqdn = name.get_char(n - 1) == '.';
        if fqdn && n == 1 {
            let d = DnsName {
                text: String::from_str(name),
                labels: Vec::new(),
                fqdn: true,
                suffix_num: 0,
                known: false,
            };
            proof {
                assert(d.spec_labels() =~~= Seq::<Seq<char>>::empty());
            }
            return Ok(d);
        }
        let core: &str = if fqdn {
            name.substring_char(0, n - 1)
        } else {
            name
        };
        proof {
            assert(name@.subrange(0, n - 1) =~= name@.drop_last());
            assert(core@ == dns_core(name@));
        }
        let cn = core.unicode_len();
        if cn > 253 {
            return Err(Error::NameTooLong);
        }
        let labels = split_str(core, '.');
        let ghost lv = str_views(labels@);
        let count = labels.len();
        let mut i: usize = 0;
        while i < count
            invariant
                0 <= i <= count,
                count == labels@.len(),
                lv == str_views(labels@),
                lv == split_on(dns_core(name@), sep_char()),
                !root_name(name@),
                1 <= name@.len(),
                dns_core(name@).len() <= 253,
                forall|j: int| 0 <= j < i ==> (#[trigger] lv[j]).len() != 0,
            decreases count - i,
        {
            if labels[i].as_str().is_empty() {
                proof {
                    assert(lv[i as int].len() == 0);
                }
                return Err(Error::EmptyLabel);
            }
            i = i + 1;
        }
        proof {
            assert(!any_empty(lv));
        }
        if count > 127 {
            return Err(Error::TooManyLabels);
        }
        let mut i: usize = 0;
        while i < count
            invariant
                0 <= i <= count,
                count == labels@.len() <= 127,
                lv == str_views(labels@),
                lv == split_on(dns_core(name@), sep_char()),
                !root_name(name@),
                1 <= name@.len(),
                dns_core(name@).len() <= 253,
                !any_empty(lv),
                labels_error_from(lv, 0, false) == labels_error_from(lv, i as int, false),
            decreases count - i,
        {
            match check_label(labels[i].as_str(), false) {
                Some(e) => {
                    proof {
                        assert(labels_error_from(lv, i as int, false) == Some(e));
                    }
                    return Err(e);
                },
                None => {},
            }
            i = i + 1;
        }
        let m = self.match_suffix(&labels);
        let d = DnsName {
            text: String::from_str(name),
            labels,
            fqdn,
            suffix_num: m.0,
            known: m.1,
        };
        Ok(d)
    }
}

} // verus!
