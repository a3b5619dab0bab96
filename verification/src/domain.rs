//! The domain parser: splits a name into labels, validates each strictly,
//! enforces the whole-name constraints, and computes the public-suffix
//! boundary under a ruleset.

use vstd::prelude::*;

verus! {

use vstd::string::StrSliceExecFns;
use vstd::string::StringExecFns;
use crate::Error;
use crate::label::{all_digits, check_all_digits, check_label, label_error_spec};
use crate::matcher::{best_exception, lemma_match_bounds, lemma_suffix_self_match, spec_suffix_match};
use crate::rules::{PslRuleset, SpecRule, rules_wf};
use crate::text::{
    join_labels, join_range, lemma_join_len_lower, lemma_join_of_split, lemma_join_skip_le,
    lemma_split_len, lemma_split_of_join, sep_char, split_on, split_str, str_views,
};

/// Whether some label of the sequence is empty.
pub open spec fn any_empty(ls: Seq<Seq<char>>) -> bool {
    exists|i: int| 0 <= i < ls.len() && (#[trigger] ls[i]).len() == 0
}

/// The first failing label's error, scanning the labels from position `i`
/// onward; `None` when every one of them is acceptable.
pub open spec fn labels_error_from(ls: Seq<Seq<char>>, i: int, strict: bool) -> Option<Error>
    decreases ls.len() - i,
{
    if i < 0 || i >= ls.len() {
        None
    } else {
        match label_error_spec(ls[i], strict) {
            Some(e) => Some(e),
            None => labels_error_from(ls, i + 1, strict),
        }
    }
}

pub proof fn lemma_labels_error_iff(ls: Seq<Seq<char>>, j: int, strict: bool)
    requires
        0 <= j <= ls.len(),
    ensures
        (labels_error_from(ls, j, strict) is None) <==> (forall|i: int|
            j <= i < ls.len() ==> label_error_spec(#[trigger] ls[i], strict) is None),
    decreases ls.len() - j,
{
    if j < ls.len() {
        lemma_labels_error_iff(ls, j + 1, strict);
    }
}

/// Everything the domain parser checks, in order; `None` means the text is
/// a well-formed domain name. The checks: non-empty, at most 253
/// characters, no empty label, at most 127 labels, every label valid in
/// strict mode, and a final label that is not all digits.
pub open spec fn domain_error(s: Seq<char>) -> Option<Error> {
    if s.len() == 0 {
        Some(Error::EmptyName)
    } else if s.len() > 253 {
        Some(Error::NameTooLong)
    } else {
        let ls = split_on(s, sep_char());
        if any_empty(ls) {
            Some(Error::EmptyLabel)
        } else if ls.len() > 127 {
            Some(Error::TooManyLabels)
        } else {
            match labels_error_from(ls, 0, true) {
                Some(e) => Some(e),
                None => if all_digits(ls[ls.len() - 1]) {
                    Some(Error::NumericTld)
                } else {
                    None
                },
            }
        }
    }
}

/// A validated domain name with its computed public-suffix boundary.
#[derive(Debug)]
pub struct Domain {
    text: String,
    labels: Vec<String>,
    suffix_num: usize,
    known: bool,
}

impl Domain {
    /// The name's text, as given to the parser.
    pub closed spec fn spec_text(&self) -> Seq<char> {
        self.text@
    }

    /// The name's labels, most significant (TLD-like) last.
    pub closed spec fn spec_labels(&self) -> Seq<Seq<char>> {
        str_views(self.labels@)
    }

    /// How many trailing labels form the public suffix.
    pub closed spec fn spec_suffix_num(&self) -> int {
        self.suffix_num as int
    }

    /// Whether an explicit rule, rather than the default, determined the
    /// suffix.
    pub closed spec fn spec_known(&self) -> bool {
        self.known
    }

    /// The public suffix as text: the trailing labels rejoined.
    pub open spec fn spec_suffix(&self) -> Seq<char> {
        join_labels(self.spec_labels().skip(self.spec_labels().len() - self.spec_suffix_num()))
    }

    /// A parsed domain is intact: its text is a well-formed domain name,
    /// its labels are the text's labels, and the suffix boundary lies
    /// within them.
    pub open spec fn wf(&self) -> bool {
        &&& domain_error(self.spec_text()) is None
        &&& self.spec_labels() == split_on(self.spec_text(), sep_char())
        &&& 1 <= self.spec_suffix_num() <= self.spec_labels().len()
    }

    /// The full name as given.
    pub fn as_str(&self) -> (r: &str)
        ensures
            r@ == self.spec_text(),
    {
        self.text.as_str()
    }

    /// Whether an explicit rule of the ruleset determined the suffix.
    pub fn has_known_suffix(&self) -> (b: bool)
        ensures
            b == self.spec_known(),
    {
        self.known
    }

    /// The public suffix: the matched trailing labels rejoined with
    /// separators.
    pub fn suffix(&self) -> (r: String)
        requires
            self.wf(),
        ensures
            r@ == self.spec_suffix(),
    {
        join_range(&self.labels, self.labels.len() - self.suffix_num)
    }

    /// The registrable root: the public suffix plus exactly one further
    /// label, or `None` when the whole name is its own suffix.
    pub fn root(&self) -> (r: Option<String>)
        requires
            self.wf(),
        ensures
            match r {
                Some(x) => self.spec_labels().len() > self.spec_suffix_num() && x@ == join_labels(
                    self.spec_labels().skip(
                        self.spec_labels().len() - self.spec_suffix_num() - 1,
                    ),
                ),
                None => self.spec_labels().len() == self.spec_suffix_num(),
            },
    {
        if self.labels.len() == self.suffix_num {
            None
        } else {
            Some(join_range(&self.labels, self.labels.len() - self.suffix_num - 1))
        }
    }

    /// How many trailing labels form the public suffix.
    pub fn suffix_label_count(&self) -> (n: usize)
        ensures
            n as int == self.spec_suffix_num(),
    {
        self.suffix_num
    }
}

impl PslRuleset {
    /// Parses a plain domain name: splits it on the separator, validates
    /// every label strictly, rejects an all-numeric final label, and
    /// computes the public-suffix boundary under this ruleset.
    pub fn parse_domain_name(&self, name: &str) -> (res: Result<Domain, Error>)
        requires
            self.wf(),
        ensures
            match res {
                Ok(d) => {
                    &&& domain_error(name@) is None
                    &&& d.wf()
                    &&& d.spec_text() == name@
                    &&& d.spec_labels() == split_on(name@, sep_char())
                    &&& (d.spec_suffix_num(), d.spec_known()) == spec_suffix_match(
                        self@,
                        d.spec_labels(),
                    )
                },
                Err(e) => domain_error(name@) == Some(e),
            },
    {
        let n = name.unicode_len();
        if n == 0 {
            return Err(Error::EmptyName);
        }
        if n > 253 {
            return Err(Error::NameTooLong);
        }
        let labels = split_str(name, '.');
        let ghost lv = str_views(labels@);
        let count = labels.len();
        let mut i: usize = 0;
        while i < count
            invariant
                0 <= i <= count,
                count == labels@.len(),
                lv == str_views(labels@),
                lv == split_on(name@, sep_char()),
                1 <= name@.len() <= 253,
                forall|j: int| 0 <= j < i ==> (#[trigger] lv[j]).len() != 0,
            decreases count - i,
        {
            if labels[i].as_str().is_empty() {
                proof {
                    assert(lv[i as int].len() == 0);
                }
                return Err(Error::EmptyLabel);
            }
            i = i + 1;
        }
        proof {
            assert(!any_empty(lv));
        }
        if count > 127 {
            return Err(Error::TooManyLabels);
        }
        let mut i: usize = 0;
        while i < count
            invariant
                0 <= i <= count,
                count == labels@.len() <= 127,
                lv == str_views(labels@),
                lv == split_on(name@, sep_char()),
                1 <= name@.len() <= 253,
                !any_empty(lv),
                labels_error_from(lv, 0, true) == labels_error_from(lv, i as int, true),
            decreases count - i,
        {
            match check_label(labels[i].as_str(), true) {
                Some(e) => {
                    proof {
                        assert(labels_error_from(lv, i as int, true) == Some(e));
                    }
                    return Err(e);
                },
                None => {},
            }
            i = i + 1;
        }
        if check_all_digits(labels[count - 1].as_str()) {
            return Err(Error::NumericTld);
        }
        let m = self.match_suffix(&labels);
        let d = Domain { text: String::from_str(name), labels, suffix_num: m.0, known: m.1 };
        Ok(d)
    }
}

/// Law (idempotence): a name's computed public suffix, re-parsed as a
/// domain of its own, is well formed, splits into exactly the suffix's
/// labels, and is marked entirely as its own suffix — so it has no
/// registrable root and equals its own suffix. The law holds provided no
/// exception rule applies to the name or to its computed suffix: an
/// exception rule carves its leading label out of the suffix it matches, so
/// the text it leaves behind need not re-match to its own full length.
pub proof fn lemma_suffix_idempotent(rules: Seq<SpecRule>, s: Seq<char>)
    requires
        rules_wf(rules),
        domain_error(s) is None,
        best_exception(rules, split_on(s, sep_char())) is None,
        ({
            let ls = split_on(s, sep_char());
            best_exception(rules, ls.skip(ls.len() - spec_suffix_match(rules, ls).0)) is None
        }),
    ensures
        ({
            let ls = split_on(s, sep_char());
            let k = spec_suffix_match(rules, ls).0;
            let sfx = ls.skip(ls.len() - k);
            let t = join_labels(sfx);
            &&& domain_error(t) is None
            &&& split_on(t, sep_char()) == sfx
            &&& spec_suffix_match(rules, sfx).0 == sfx.len()
            &&& spec_suffix_match(rules, sfx).0 == k
        }),
{
    let ls = split_on(s, sep_char());
    lemma_split_len(s, sep_char());
    lemma_match_bounds(rules, ls);
    let k = spec_suffix_match(rules, ls).0;
    let sfx = ls.skip(ls.len() - k);
    let t = join_labels(sfx);
    lemma_labels_error_iff(ls, 0, true);
    assert(forall|i: int| 0 <= i < ls.len() ==> label_error_spec(#[trigger] ls[i], true) is None);
    assert forall|i: int| 0 <= i < sfx.len() implies label_error_spec(
        #[trigger] sfx[i],
        true,
    ) is None && sfx[i].len() >= 1 by {
        assert(sfx[i] == ls[ls.len() - k + i]);
        assert(label_error_spec(ls[ls.len() - k + i], true) is None);
    }
    assert forall|i: int, c: int| 0 <= i < sfx.len() && 0 <= c < sfx[i].len() implies #[trigger] sfx[i][c]
        != sep_char() by {
        assert(label_error_spec(sfx[i], true) is None);
        assert(crate::label::label_char_ok(sfx[i][c]));
    }
    lemma_split_of_join(sfx);
    lemma_join_of_split(s);
    lemma_join_skip_le(ls, ls.len() - k);
    lemma_join_len_lower(sfx);
    assert(t.len() >= 1);
    assert(t.len() <= 253);
    assert(!any_empty(sfx));
    lemma_labels_error_iff(sfx, 0, true);
    assert(sfx[sfx.len() - 1] == ls[ls.len() - 1]);
    assert(!all_digits(sfx[sfx.len() - 1]));
    assert(domain_error(t) is None);
    lemma_suffix_self_match(rules, ls);
}

} // verus!
