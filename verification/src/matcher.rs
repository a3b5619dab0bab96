//! The suffix-matching engine's mathematical core: when a rule applies to a
//! label sequence, what the longest applicable match is, and the precedence
//! laws (longest wins; exceptions override).

use vstd::prelude::*;

verus! {

use crate::rules::{RuleKind, SpecRule, rules_wf};
use crate::text::eq_label_ci;

/// `pat` matches the trailing labels of `labels`, case-insensitively,
/// label by label.
pub open spec fn is_label_suffix(pat: Seq<Seq<char>>, labels: Seq<Seq<char>>) -> bool {
    pat.len() <= labels.len() && (forall|t: int|
        0 <= t < pat.len() ==> eq_label_ci(#[trigger] pat[t], labels[labels.len() - pat.len() + t]))
}

/// Whether one rule applies to a label sequence. A plain or exception rule
/// applies when its labels match the trailing labels; a wildcard rule needs
/// one further label beyond its literal trailing labels, matched by the
/// wildcard position.
pub open spec fn rule_matches(r: SpecRule, labels: Seq<Seq<char>>) -> bool {
    if r.kind is Wildcard {
        labels.len() >= r.labels.len() + 1 && is_label_suffix(r.labels, labels)
    } else {
        is_label_suffix(r.labels, labels)
    }
}

/// The number of trailing labels an applicable rule marks as the public
/// suffix: its label count for a plain rule, one more for a wildcard rule,
/// and one fewer for an exception rule (the exception carves its leading
/// label out of the suffix).
pub open spec fn eff_len(r: SpecRule) -> int {
    match r.kind {
        RuleKind::Plain => r.labels.len() as int,
        RuleKind::Wildcard => r.labels.len() + 1int,
        RuleKind::Exception => r.labels.len() - 1int,
    }
}

pub open spec fn opt_max(o: Option<int>, v: int) -> Option<int> {
    match o {
        None => Some(v),
        Some(m) => Some(if v > m {
            v
        } else {
            m
        }),
    }
}

/// The largest suffix length yielded by an applicable exception rule, if any.
pub open spec fn best_exception(rules: Seq<SpecRule>, labels: Seq<Seq<char>>) -> Option<int>
    decreases rules.len(),
{
    if rules.len() == 0 {
        None
    } else {
        let prev = best_exception(rules.drop_last(), labels);
        let r = rules.last();
        if r.kind is Exception && rule_matches(r, labels) {
            opt_max(prev, eff_len(r))
        } else {
            prev
        }
    }
}

/// The largest suffix length yielded by an applicable plain or wildcard
/// rule, if any.
pub open spec fn best_explicit(rules: Seq<SpecRule>, labels: Seq<Seq<char>>) -> Option<int>
    decreases rules.len(),
{
    if rules.len() == 0 {
        None
    } else {
        let prev = best_explicit(rules.drop_last(), labels);
        let r = rules.last();
        if !(r.kind is Exception) && rule_matches(r, labels) {
            opt_max(prev, eff_len(r))
        } else {
            prev
        }
    }
}

/// The matcher's result on a non-empty label sequence: the number of
/// trailing labels forming the public suffix, and whether an explicit rule
/// (rather than the default single-label rule) determined it. Exceptions
/// take precedence over wildcard and plain rules; among the rest the longest
/// applicable rule wins; with no applicable rule the default rule marks the
/// single rightmost label, not known.
pub open spec fn spec_suffix_match(rules: Seq<SpecRule>, labels: Seq<Seq<char>>) -> (int, bool) {
    match best_exception(rules, labels) {
        Some(x) => (x, true),
        None => match best_explicit(rules, labels) {
            Some(m) => (m, true),
            None => (1int, false),
        },
    }
}

pub open spec fn opt_as_int(o: Option<usize>) -> Option<int> {
    match o {
        Some(v) => Some(v as int),
        None => None,
    }
}

pub proof fn lemma_best_exception_bound(rules: Seq<SpecRule>, labels: Seq<Seq<char>>)
    requires
        rules_wf(rules),
    ensures
        match best_exception(rules, labels) {
            Some(x) => 1 <= x <= labels.len() - 1,
            None => true,
        },
    decreases rules.len(),
{
    if rules.len() > 0 {
        assert(forall|i: int|
            0 <= i < rules.drop_last().len() ==> #[trigger] rules.drop_last()[i] == rules[i]);
        lemma_best_exception_bound(rules.drop_last(), labels);
        assert(rules.last() == rules[rules.len() - 1]);
    }
}

pub proof fn lemma_best_explicit_bound(rules: Seq<SpecRule>, labels: Seq<Seq<char>>)
    requires
        rules_wf(rules),
        labels.len() >= 1,
    ensures
        match best_explicit(rules, labels) {
            Some(m) => 1 <= m <= labels.len(),
            None => true,
        },
    decreases rules.len(),
{
    if rules.len() > 0 {
        assert(forall|i: int|
            0 <= i < rules.drop_last().len() ==> #[trigger] rules.drop_last()[i] == rules[i]);
        lemma_best_explicit_bound(rules.drop_last(), labels);
        assert(rules.last() == rules[rules.len() - 1]);
    }
}

pub proof fn lemma_best_exception_at_least(rules: Seq<SpecRule>, labels: Seq<Seq<char>>, i: int)
    requires
        0 <= i < rules.len(),
        rules[i].kind is Exception,
        rule_matches(rules[i], labels),
    ensures
        best_exception(rules, labels) matches Some(x) && x >= eff_len(rules[i]),
    decreases rules.len(),
{
    assert(rules.last() == rules[rules.len() - 1]);
    if i < rules.len() - 1 {
        assert(rules.drop_last()[i] == rules[i]);
        lemma_best_exception_at_least(rules.drop_last(), labels, i);
    }
}

pub proof fn lemma_best_explicit_at_least(rules: Seq<SpecRule>, labels: Seq<Seq<char>>, i: int)
    requires
        0 <= i < rules.len(),
        !(rules[i].kind is Exception),
        rule_matches(rules[i], labels),
    ensures
        best_explicit(rules, labels) matches Some(m) && m >= eff_len(rules[i]),
    decreases rules.len(),
{
    assert(rules.last() == rules[rules.len() - 1]);
    if i < rules.len() - 1 {
        assert(rules.drop_last()[i] == rules[i]);
        lemma_best_explicit_at_least(rules.drop_last(), labels, i);
    }
}

pub proof fn lemma_best_exception_witness(rules: Seq<SpecRule>, labels: Seq<Seq<char>>)
    requires
        best_exception(rules, labels) is Some,
    ensures
        exists|j: int|
            0 <= j < rules.len() && (#[trigger] rules[j]).kind is Exception && rule_matches(
                rules[j],
                labels,
            ) && eff_len(rules[j]) == best_exception(rules, labels)->Some_0,
    decreases rules.len(),
{
    let r = rules.last();
    assert(rules.last() == rules[rules.len() - 1]);
    let prev = best_exception(rules.drop_last(), labels);
    if r.kind is Exception && rule_matches(r, labels) {
        if prev is Some && prev->Some_0 >= eff_len(r) {
            lemma_best_exception_witness(rules.drop_last(), labels);
            let j = choose|j: int|
                0 <= j < rules.drop_last().len() && (#[trigger] rules.drop_last()[j]).kind
                    is Exception && rule_matches(rules.drop_last()[j], labels) && eff_len(
                    rules.drop_last()[j],
                ) == prev->Some_0;
            assert(rules.drop_last()[j] == rules[j]);
        }
    } else {
        lemma_best_exception_witness(rules.drop_last(), labels);
        let j = choose|j: int|
            0 <= j < rules.drop_last().len() && (#[trigger] rules.drop_last()[j]).kind is Exception
                && rule_matches(rules.drop_last()[j], labels) && eff_len(rules.drop_last()[j])
                == prev->Some_0;
        assert(rules.drop_last()[j] == rules[j]);
    }
}

pub proof fn lemma_best_explicit_witness(rules: Seq<SpecRule>, labels: Seq<Seq<char>>)
    requires
        best_explicit(rules, labels) is Some,
    ensures
        exists|j: int|
            0 <= j < rules.len() && !((#[trigger] rules[j]).kind is Exception) && rule_matches(
                rules[j],
                labels,
            ) && eff_len(rules[j]) == best_explicit(rules, labels)->Some_0,
    decreases rules.len(),
{
    let r = rules.last();
    assert(rules.last() == rules[rules.len() - 1]);
    let prev = best_explicit(rules.drop_last(), labels);
    if !(r.kind is Exception) && rule_matches(r, labels) {
        if prev is Some && prev->Some_0 >= eff_len(r) {
            lemma_best_explicit_witness(rules.drop_last(), labels);
            let j = choose|j: int|
                0 <= j < rules.drop_last().len() && !((#[trigger] rules.drop_last()[j]).kind
                    is Exception) && rule_matches(rules.drop_last()[j], labels) && eff_len(
                    rules.drop_last()[j],
                ) == prev->Some_0;
            assert(rules.drop_last()[j] == rules[j]);
        }
    } else {
        lemma_best_explicit_witness(rules.drop_last(), labels);
        let j = choose|j: int|
            0 <= j < rules.drop_last().len() && !((#[trigger] rules.drop_last()[j]).kind
                is Exception) && rule_matches(rules.drop_last()[j], labels) && eff_len(
                rules.drop_last()[j],
            ) == prev->Some_0;
        assert(rules.drop_last()[j] == rules[j]);
    }
}

/// A rule that applies to a trailing portion of a label sequence applies to
/// the whole sequence as well.
pub proof fn lemma_matches_lift(r: SpecRule, labels: Seq<Seq<char>>, d: int)
    requires
        0 <= d <= labels.len(),
        rule_matches(r, labels.skip(d)),
    ensures
        rule_matches(r, labels),
{
    let s = labels.skip(d);
    let p = r.labels.len() as int;
    assert forall|t: int| 0 <= t < p implies eq_label_ci(
        #[trigger] r.labels[t],
        labels[labels.len() - p + t],
    ) by {
        assert(eq_label_ci(r.labels[t], s[s.len() - p + t]));
        assert(s[s.len() - p + t] == labels[d + (s.len() - p + t)]);
    }
}

/// If no plain or wildcard rule applies to a label sequence, none applies to
/// any trailing portion of it either.
pub proof fn lemma_best_explicit_none_skip(rules: Seq<SpecRule>, labels: Seq<Seq<char>>, d: int)
    requires
        0 <= d <= labels.len(),
        best_explicit(rules, labels) is None,
    ensures
        best_explicit(rules, labels.skip(d)) is None,
{
    if best_explicit(rules, labels.skip(d)) is Some {
        lemma_best_explicit_witness(rules, labels.skip(d));
        let j = choose|j: int|
            0 <= j < rules.len() && !((#[trigger] rules[j]).kind is Exception) && rule_matches(
                rules[j],
                labels.skip(d),
            ) && eff_len(rules[j]) == best_explicit(rules, labels.skip(d))->Some_0;
        lemma_matches_lift(rules[j], labels, d);
        lemma_best_explicit_at_least(rules, labels, j);
        assert(false);
    }
}

/// Law: when no exception rule applies, the matcher selects the longest
/// applicable rule — its result is marked known, is at least the effective
/// length of every applicable plain or wildcard rule, and equals the
/// effective length of one of them.
pub proof fn lemma_longest_match(rules: Seq<SpecRule>, labels: Seq<Seq<char>>, i: int)
    requires
        rules_wf(rules),
        labels.len() >= 1,
        0 <= i < rules.len(),
        !(rules[i].kind is Exception),
        rule_matches(rules[i], labels),
        best_exception(rules, labels) is None,
    ensures
        spec_suffix_match(rules, labels).1,
        spec_suffix_match(rules, labels).0 >= eff_len(rules[i]),
        exists|j: int|
            0 <= j < rules.len() && !((#[trigger] rules[j]).kind is Exception) && rule_matches(
                rules[j],
                labels,
            ) && eff_len(rules[j]) == spec_suffix_match(rules, labels).0,
{
    lemma_best_explicit_at_least(rules, labels, i);
    lemma_best_explicit_witness(rules, labels);
}

/// Law: an applicable exception rule always wins over every applicable
/// wildcard or plain rule, whatever their lengths: the result is then
/// determined by the exception rules alone — it is marked known, is at
/// least this exception's effective length (one fewer than its labels), and
/// equals the effective length of some applicable exception rule.
pub proof fn lemma_exception_wins(rules: Seq<SpecRule>, labels: Seq<Seq<char>>, i: int)
    requires
        rules_wf(rules),
        labels.len() >= 1,
        0 <= i < rules.len(),
        rules[i].kind is Exception,
        rule_matches(rules[i], labels),
    ensures
        spec_suffix_match(rules, labels).1,
        spec_suffix_match(rules, labels).0 >= eff_len(rules[i]),
        exists|j: int|
            0 <= j < rules.len() && (#[trigger] rules[j]).kind is Exception && rule_matches(
                rules[j],
                labels,
            ) && eff_len(rules[j]) == spec_suffix_match(rules, labels).0,
{
    lemma_best_exception_at_least(rules, labels, i);
    lemma_best_exception_witness(rules, labels);
}

/// Law: whenever any explicit rule applies to a name's labels, the matcher
/// marks the result as known — so such a name parses with a known suffix.
pub proof fn lemma_applicable_rule_known(rules: Seq<SpecRule>, labels: Seq<Seq<char>>, i: int)
    requires
        rules_wf(rules),
        labels.len() >= 1,
        0 <= i < rules.len(),
        rule_matches(rules[i], labels),
    ensures
        spec_suffix_match(rules, labels).1,
{
    if rules[i].kind is Exception {
        lemma_best_exception_at_least(rules, labels, i);
    } else {
        lemma_best_explicit_at_least(rules, labels, i);
    }
}

/// The matcher's result never exceeds the label count and is at least one.
pub proof fn lemma_match_bounds(rules: Seq<SpecRule>, labels: Seq<Seq<char>>)
    requires
        rules_wf(rules),
        labels.len() >= 1,
    ensures
        1 <= spec_suffix_match(rules, labels).0 <= labels.len(),
{
    lemma_best_exception_bound(rules, labels);
    lemma_best_explicit_bound(rules, labels);
}

/// Law (a suffix is its own suffix): provided no exception rule applies to
/// the name or to its computed suffix, re-matching the computed suffix marks
/// all of its labels as the suffix again.
pub proof fn lemma_suffix_self_match(rules: Seq<SpecRule>, labels: Seq<Seq<char>>)
    requires
        rules_wf(rules),
        labels.len() >= 1,
        best_exception(rules, labels) is None,
        best_exception(rules, labels.skip(labels.len() - spec_suffix_match(rules, labels).0))
            is None,
    ensures
        ({
            let s = labels.skip(labels.len() - spec_suffix_match(rules, labels).0);
            spec_suffix_match(rules, s).0 == s.len() && spec_suffix_match(rules, s).0
                == spec_suffix_match(rules, labels).0
        }),
{
    lemma_match_bounds(rules, labels);
    let k = spec_suffix_match(rules, labels).0;
    let d = labels.len() - k;
    let s = labels.skip(d);
    assert(s.len() == k);
    match best_explicit(rules, labels) {
        None => {
            lemma_best_explicit_none_skip(rules, labels, d);
            assert(k == 1);
        },
        Some(m) => {
            assert(m == k);
            lemma_best_explicit_witness(rules, labels);
            let j = choose|j: int|
                0 <= j < rules.len() && !((#[trigger] rules[j]).kind is Exception) && rule_matches(
                    rules[j],
                    labels,
                ) && eff_len(rules[j]) == m;
            let r = rules[j];
            let p = r.labels.len() as int;
            assert forall|t: int| 0 <= t < p implies eq_label_ci(
                #[trigger] r.labels[t],
                s[s.len() - p + t],
            ) by {
                assert(eq_label_ci(r.labels[t], labels[labels.len() - p + t]));
                assert(s[s.len() - p + t] == labels[d + (s.len() - p + t)]);
            }
            assert(rule_matches(r, s));
            lemma_best_explicit_at_least(rules, s, j);
            lemma_best_explicit_bound(rules, s);
        },
    }
}

} // verus!
