//! The public-suffix ruleset: plain, wildcard and exception rules over label
//! sequences, consumed read-only by the suffix matcher.

use vstd::prelude::*;

verus! {

use vstd::string::StrSliceExecFns;
use crate::matcher::{
    best_exception, best_explicit, eff_len, is_label_suffix, lemma_match_bounds, opt_as_int,
    rule_matches, spec_suffix_match,
};
use crate::text::{eq_label_ci, label_eq_ci, str_views};

/// The kind of a rule: a literal suffix, a wildcard covering one further
/// label, or an exception carving a name out of a wildcard's cover.
#[derive(Copy, Clone, Debug)]
pub enum RuleKind {
    Plain,
    Wildcard,
    Exception,
}

/// The mathematical form of one rule: its kind and its literal labels,
/// given in written order, the most significant (TLD-like) label last. A
/// wildcard rule's labels are only the literal trailing part; the wildcard
/// position is implicit before them.
pub ghost struct SpecRule {
    pub kind: RuleKind,
    pub labels: Seq<Seq<char>>,
}

pub(crate) struct Rule {
    pub(crate) kind: RuleKind,
    pub(crate) labels: Vec<String>,
}

impl View for Rule {
    type V = SpecRule;

    closed spec fn view(&self) -> SpecRule {
        SpecRule { kind: self.kind, labels: str_views(self.labels@) }
    }
}

/// A plain rule names at least one label; an exception rule needs a leading
/// label to carve out on top of the suffix it leaves, so at least two.
pub open spec fn rule_wf(r: SpecRule) -> bool {
    match r.kind {
        RuleKind::Plain => r.labels.len() >= 1,
        RuleKind::Wildcard => true,
        RuleKind::Exception => r.labels.len() >= 2,
    }
}

pub open spec fn rules_wf(rules: Seq<SpecRule>) -> bool {
    forall|i: int| 0 <= i < rules.len() ==> rule_wf(#[trigger] rules[i])
}

/// A set of public-suffix rules, built once and consumed read-only.
pub struct PslRuleset {
    rules: Vec<Rule>,
}

impl View for PslRuleset {
    type V = Seq<SpecRule>;

    closed spec fn view(&self) -> Seq<SpecRule> {
        self.rules@.map_values(|r: Rule| r@)
    }
}

impl PslRuleset {
    pub open spec fn wf(&self) -> bool {
        rules_wf(self@)
    }

    pub fn new() -> (r: PslRuleset)
        ensures
            r@ == Seq::<SpecRule>::empty(),
            r.wf(),
    {
        let r = PslRuleset { rules: Vec::new() };
        proof {
            assert(r@ =~= Seq::<SpecRule>::empty());
        }
        r
    }

    fn add(&mut self, kind: RuleKind, labels: Vec<String>) -> (g: Ghost<SpecRule>)
        ensures
            final(self)@ == old(self)@.push(g@),
            g@ == (SpecRule { kind, labels: str_views(labels@) }),
    {
        let ghost r0 = self@;
        let rule = Rule { kind, labels };
        let ghost g = rule@;
        self.rules.push(rule);
        proof {
            assert(self@ =~~= r0.push(g));
        }
        Ghost(g)
    }

    /// Adds a plain rule with the given literal labels, most significant
    /// last.
    pub fn add_plain(&mut self, labels: Vec<String>)
        requires
            old(self).wf(),
            labels@.len() >= 1,
        ensures
            final(self).wf(),
            final(self)@ == old(self)@.push(
                SpecRule { kind: RuleKind::Plain, labels: str_views(labels@) },
            ),
    {
        let _ = self.add(RuleKind::Plain, labels);
    }

    /// Adds a wildcard rule: the given labels are the literal trailing part,
    /// and the wildcard position stands immediately before them.
    pub fn add_wildcard(&mut self, labels: Vec<String>)
        requires
            old(self).wf(),
        ensures
            final(self).wf(),
            final(self)@ == old(self)@.push(
                SpecRule { kind: RuleKind::Wildcard, labels: str_views(labels@) },
            ),
    {
        let _ = self.add(RuleKind::Wildcard, labels);
    }

    /// Adds an exception rule with the given literal labels, most
    /// significant last; its leading label is the one carved out.
    pub fn add_exception(&mut self, labels: Vec<String>)
        requires
            old(self).wf(),
            labels@.len() >= 2,
        ensures
            final(self).wf(),
            final(self)@ == old(self)@.push(
                SpecRule { kind: RuleKind::Exception, labels: str_views(labels@) },
            ),
    {
        let _ = self.add(RuleKind::Exception, labels);
    }

    /// Whether the rule at a given position applies to the label sequence.
    fn rule_applies(&self, i: usize, labels: &Vec<String>) -> (b: bool)
        requires
            i < self@.len(),
        ensures
            b == rule_matches(self@[i as int], str_views(labels@)),
    {
        let ghost lv = str_views(labels@);
        let r = &self.rules[i];
        proof {
            assert(self@[i as int] == self.rules@[i as int]@);
        }
        let p = r.labels.len();
        let n = labels.len();
        if p > n {
            return false;
        }
        let wild = match r.kind {
            RuleKind::Wildcard => true,
            _ => false,
        };
        if wild && n - p < 1 {
            return false;
        }
        let mut t: usize = 0;
        while t < p
            invariant
                0 <= t <= p,
                i < self@.len(),
                self@[i as int] == r@,
                p == r.labels@.len(),
                p <= n == labels@.len(),
                lv == str_views(labels@),
                forall|j: int| 0 <= j < t ==> eq_label_ci(#[trigger] r@.labels[j], lv[n - p + j]),
            decreases p - t,
        {
            if !label_eq_ci(r.labels[t].as_str(), labels[n - p + t].as_str()) {
                proof {
                    assert(lv.len() == n);
                    assert(r@.labels.len() == p);
                    assert(!eq_label_ci(r@.labels[t as int], lv[n - p + t]));
                    assert(!is_label_suffix(r@.labels, lv));
                }
                return false;
            }
            t = t + 1;
        }
        proof {
            assert(is_label_suffix(r@.labels, lv));
        }
        true
    }

    /// Longest-match with exception and wildcard precedence: the number of
    /// trailing labels of `labels` that form the public suffix under this
    /// ruleset, and whether an explicit rule determined it.
    pub fn match_suffix(&self, labels: &Vec<String>) -> (m: (usize, bool))
        requires
            self.wf(),
            labels@.len() >= 1,
        ensures
            (m.0 as int, m.1) == spec_suffix_match(self@, str_views(labels@)),
            1 <= m.0 <= labels@.len(),
    {
        let ghost lv = str_views(labels@);
        let n = labels.len();
        let mut best_exc: Option<usize> = None;
        let mut best_exp: Option<usize> = None;
        let mut i: usize = 0;
        proof {
            assert(self@.take(0) =~= Seq::<SpecRule>::empty());
        }
        while i < self.rules.len()
            invariant
                0 <= i <= self@.len(),
                self.wf(),
                self@.len() == self.rules@.len(),
                n == labels@.len() >= 1,
                lv == str_views(labels@),
                opt_as_int(best_exc) == best_exception(self@.take(i as int), lv),
                opt_as_int(best_exp) == best_explicit(self@.take(i as int), lv),
                best_exc matches Some(v) ==> v <= n,
                best_exp matches Some(v) ==> v <= n,
            decreases self@.len() - i,
        {
            proof {
                assert(self@.take(i + 1).drop_last() =~= self@.take(i as int));
                assert(self@.take(i + 1).last() == self@[i as int]);
                assert(rule_wf(self@[i as int]));
            }
            let applies = self.rule_applies(i, labels);
            let r = &self.rules[i];
            if applies {
                proof {
                    assert(r@.labels.len() == r.labels@.len());
                }
                match r.kind {
                    RuleKind::Exception => {
                        let e = r.labels.len() - 1;
                        proof {
                            assert(e as int == eff_len(r@));
                            assert(e <= n);
                        }
                        best_exc = match best_exc {
                            None => Some(e),
                            Some(v) => if e > v {
                                Some(e)
                            } else {
                                Some(v)
                            },
                        };
                    },
                    RuleKind::Wildcard => {
                        let e = r.labels.len() + 1;
                        proof {
                            assert(e as int == eff_len(r@));
                        }
                        best_exp = match best_exp {
                            None => Some(e),
                            Some(v) => if e > v {
                                Some(e)
                            } else {
                                Some(v)
                            },
                        };
                    },
                    RuleKind::Plain => {
                        let e = r.labels.len();
                        proof {
                            assert(e as int == eff_len(r@));
                        }
                        best_exp = match best_exp {
                            None => Some(e),
                            Some(v) => if e > v {
                                Some(e)
                            } else {
                                Some(v)
                            },
                        };
                    },
                }
            }
            i = i + 1;
        }
        proof {
            assert(self@.take(self@.len() as int) =~= self@);
            lemma_match_bounds(self@, lv);
        }
        match best_exc {
            Some(x) => (x, true),
            None => match best_exp {
                Some(m) => (m, true),
                None => (1, false),
            },
        }
    }
}

} // verus!
