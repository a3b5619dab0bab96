//! Character classes, case-insensitive comparison, and the splitting of a
//! name into labels (and the inverse joining), at the specification level and
//! as verified executable helpers.

use vstd::prelude::*;

verus! {

use vstd::string::StrSliceExecFns;
use vstd::string::StringExecFns;

/// The label separator in domain names.
pub open spec fn sep_char() -> char {
    '.'
}

pub open spec fn is_digit_c(c: char) -> bool {
    48 <= c as u32 <= 57
}

pub open spec fn is_alpha_c(c: char) -> bool {
    (65 <= c as u32 <= 90) || (97 <= c as u32 <= 122)
}

pub open spec fn is_alnum_c(c: char) -> bool {
    is_digit_c(c) || is_alpha_c(c)
}

pub open spec fn is_hex_c(c: char) -> bool {
    is_digit_c(c) || (65 <= c as u32 <= 70) || (97 <= c as u32 <= 102)
}

pub open spec fn is_upper_c(c: char) -> bool {
    65 <= c as u32 <= 90
}

/// Two characters are equal up to ASCII case.
pub open spec fn eq_char_ci(a: char, b: char) -> bool {
    ||| a == b
    ||| (is_upper_c(a) && b as u32 == a as u32 + 32)
    ||| (is_upper_c(b) && a as u32 == b as u32 + 32)
}

/// Two labels are equal up to ASCII case, character by character.
pub open spec fn eq_label_ci(a: Seq<char>, b: Seq<char>) -> bool {
    a.len() == b.len() && (forall|i: int| 0 <= i < a.len() ==> eq_char_ci(#[trigger] a[i], b[i]))
}

pub open spec fn has_char(s: Seq<char>, c: char) -> bool {
    exists|i: int| 0 <= i < s.len() && #[trigger] s[i] == c
}

/// The views of a sequence of owned strings.
pub open spec fn str_views(v: Seq<String>) -> Seq<Seq<char>> {
    v.map_values(|s: String| s@)
}

/// Splitting a text on a separator character. The result always has one more
/// element than the text has separators; an empty text splits into one empty
/// part.
pub open spec fn split_on(s: Seq<char>, sep: char) -> Seq<Seq<char>>
    decreases s.len(),
{
    if s.len() == 0 {
        seq![Seq::<char>::empty()]
    } else if s.last() == sep {
        split_on(s.drop_last(), sep).push(Seq::<char>::empty())
    } else {
        let p = split_on(s.drop_last(), sep);
        p.drop_last().push(p.last().push(s.last()))
    }
}

/// Joining labels with the domain separator; the inverse of `split_on` for
/// separator-free labels.
pub open spec fn join_labels(ls: Seq<Seq<char>>) -> Seq<char>
    decreases ls.len(),
{
    if ls.len() == 0 {
        Seq::<char>::empty()
    } else if ls.len() == 1 {
        ls[0]
    } else {
        join_labels(ls.drop_last()) + seq![sep_char()] + ls.last()
    }
}

pub proof fn lemma_split_len(s: Seq<char>, sep: char)
    ensures
        1 <= split_on(s, sep).len() <= s.len() + 1,
    decreases s.len(),
{
    if s.len() > 0 {
        lemma_split_len(s.drop_last(), sep);
    }
}

/// A separator-free text splits into exactly itself.
pub proof fn lemma_split_nosep(s: Seq<char>, sep: char)
    requires
        forall|i: int| 0 <= i < s.len() ==> #[trigger] s[i] != sep,
    ensures
        split_on(s, sep) == seq![s],
    decreases s.len(),
{
    if s.len() == 0 {
        assert(split_on(s, sep) =~~= seq![s]);
    } else {
        lemma_split_nosep(s.drop_last(), sep);
        assert(split_on(s, sep) =~~= seq![s]);
    }
}

/// Splitting distributes over a separator: for a separator-free tail `b`,
/// `a + sep + b` splits into the parts of `a` followed by `b`.
pub proof fn lemma_split_append_tail(a: Seq<char>, b: Seq<char>, sep: char)
    requires
        forall|i: int| 0 <= i < b.len() ==> #[trigger] b[i] != sep,
    ensures
        split_on(a + seq![sep] + b, sep) == split_on(a, sep).push(b),
    decreases b.len(),
{
    let t = a + seq![sep] + b;
    if b.len() == 0 {
        assert(t.last() == sep);
        assert(t.drop_last() =~= a);
        assert(split_on(t, sep) =~~= split_on(a, sep).push(b));
    } else {
        assert(t.last() == b.last());
        assert(t.drop_last() =~= a + seq![sep] + b.drop_last());
        lemma_split_append_tail(a, b.drop_last(), sep);
        let p = split_on(t.drop_last(), sep);
        assert(p == split_on(a, sep).push(b.drop_last()));
        lemma_split_len(a, sep);
        assert(p.drop_last() =~~= split_on(a, sep));
        assert(p.last() == b.drop_last());
        assert(b.drop_last().push(b.last()) =~= b);
        assert(split_on(t, sep) =~~= split_on(a, sep).push(b));
    }
}

/// Splitting a joined label sequence recovers it, as long as every label is
/// free of the separator.
pub proof fn lemma_split_of_join(ls: Seq<Seq<char>>)
    requires
        ls.len() >= 1,
        forall|i: int, k: int|
            0 <= i < ls.len() && 0 <= k < ls[i].len() ==> #[trigger] ls[i][k] != sep_char(),
    ensures
        split_on(join_labels(ls), sep_char()) == ls,
    decreases ls.len(),
{
    if ls.len() == 1 {
        assert(forall|k: int| 0 <= k < ls[0].len() ==> #[trigger] ls[0][k] != sep_char());
        lemma_split_nosep(ls[0], sep_char());
        assert(split_on(join_labels(ls), sep_char()) =~~= ls);
    } else {
        lemma_split_of_join(ls.drop_last());
        assert(forall|k: int| 0 <= k < ls.last().len() ==> #[trigger] ls.last()[k]
            != sep_char()) by {
            assert(forall|k: int|
                0 <= k < ls[ls.len() - 1].len() ==> #[trigger] ls[ls.len() - 1][k] != sep_char());
        }
        lemma_split_append_tail(join_labels(ls.drop_last()), ls.last(), sep_char());
        assert(split_on(join_labels(ls), sep_char()) =~~= ls.drop_last().push(ls.last()));
        assert(ls.drop_last().push(ls.last()) =~= ls);
    }
}

/// Joining the parts of a split recovers the original text.
pub proof fn lemma_join_of_split(s: Seq<char>)
    ensures
        join_labels(split_on(s, sep_char())) == s,
    decreases s.len(),
{
    if s.len() == 0 {
        assert(join_labels(split_on(s, sep_char())) =~= s);
    } else if s.last() == sep_char() {
        lemma_join_of_split(s.drop_last());
        let p = split_on(s.drop_last(), sep_char());
        lemma_split_len(s.drop_last(), sep_char());
        let q = p.push(Seq::<char>::empty());
        assert(q.len() >= 2);
        assert(q.drop_last() =~~= p);
        assert(join_labels(q) =~= s);
    } else {
        lemma_join_of_split(s.drop_last());
        let p = split_on(s.drop_last(), sep_char());
        lemma_split_len(s.drop_last(), sep_char());
        let q = p.drop_last().push(p.last().push(s.last()));
        if p.len() == 1 {
            assert(q.len() == 1);
            assert(join_labels(p) == p[0]);
            assert(q[0] =~= s);
        } else {
            assert(q.drop_last() =~~= p.drop_last().drop_last().push(p.drop_last().last()));
            assert(q.drop_last() =~~= p.drop_last());
            assert(join_labels(q) == join_labels(p.drop_last()) + seq![sep_char()] + q.last());
            assert(join_labels(p) == join_labels(p.drop_last()) + seq![sep_char()] + p.last());
            assert(join_labels(q) =~= join_labels(p).push(s.last()));
            assert(join_labels(p).push(s.last()) =~= s);
        }
    }
}

/// Dropping leading labels never lengthens the joined text.
pub proof fn lemma_join_skip_le(ls: Seq<Seq<char>>, d: int)
    requires
        0 <= d <= ls.len(),
    ensures
        join_labels(ls.skip(d)).len() <= join_labels(ls).len(),
    decreases ls.len(),
{
    if d == 0 {
        assert(ls.skip(0) =~~= ls);
    } else if d == ls.len() {
        assert(ls.skip(d).len() == 0);
    } else if ls.skip(d).len() == 1 {
        assert(ls.len() >= 2);
        assert(ls.skip(d).last() == ls.last());
        assert(join_labels(ls.skip(d)) == ls.last());
        assert(join_labels(ls).len() >= ls.last().len());
    } else {
        assert(ls.len() >= 2);
        let a = ls.drop_last();
        assert(ls.skip(d).drop_last() =~~= a.skip(d));
        assert(ls.skip(d).last() == ls.last());
        lemma_join_skip_le(a, d);
        assert(join_labels(ls.skip(d)) == join_labels(a.skip(d)) + seq![sep_char()] + ls.last());
    }
}

/// A joined label sequence is at least as long as its first label plus one
/// separator for each further label.
pub proof fn lemma_join_len_lower(ls: Seq<Seq<char>>)
    requires
        ls.len() >= 1,
    ensures
        join_labels(ls).len() >= ls[0].len() + ls.len() - 1,
    decreases ls.len(),
{
    if ls.len() > 1 {
        lemma_join_len_lower(ls.drop_last());
    }
}

/// Case-insensitive equality of two characters.
pub fn char_eq_ci(a: char, b: char) -> (r: bool)
    ensures
        r == eq_char_ci(a, b),
{
    if a == b {
        true
    } else {
        let au = a as u32;
        let bu = b as u32;
        (65 <= au && au <= 90 && bu == au + 32) || (65 <= bu && bu <= 90 && au == bu + 32)
    }
}

/// Case-insensitive equality of two labels.
pub fn label_eq_ci(a: &str, b: &str) -> (r: bool)
    ensures
        r == eq_label_ci(a@, b@),
{
    let an = a.unicode_len();
    let bn = b.unicode_len();
    if an != bn {
        return false;
    }
    let mut i: usize = 0;
    while i < an
        invariant
            0 <= i <= an,
            an == a@.len(),
            an == b@.len(),
            forall|j: int| 0 <= j < i ==> eq_char_ci(#[trigger] a@[j], b@[j]),
        decreases an - i,
    {
        if !char_eq_ci(a.get_char(i), b.get_char(i)) {
            return false;
        }
        i = i + 1;
    }
    true
}

/// Splits a text on a separator character, returning owned parts.
pub fn split_str(s: &str, sep: char) -> (parts: Vec<String>)
    ensures
        str_views(parts@) == split_on(s@, sep),
        parts@.len() >= 1,
{
    let n = s.unicode_len();
    let mut parts: Vec<String> = Vec::new();
    let mut start: usize = 0;
    let mut i: usize = 0;
    proof {
        assert(s@.take(0) =~= Seq::<char>::empty());
        assert(s@.subrange(0, 0) =~= Seq::<char>::empty());
        assert(str_views(parts@).push(Seq::<char>::empty()) =~~= seq![Seq::<char>::empty()]);
    }
    while i < n
        invariant
            0 <= start <= i <= n,
            n == s@.len(),
            split_on(s@.take(i as int), sep) == str_views(parts@).push(
                s@.subrange(start as int, i as int),
            ),
        decreases n - i,
    {
        let c = s.get_char(i);
        proof {
            assert(s@.take(i + 1).drop_last() =~= s@.take(i as int));
            assert(s@.take(i + 1).last() == s@[i as int]);
        }
        if c == sep {
            let piece = String::from_str(s.substring_char(start, i));
            proof {
                assert(str_views(parts@.push(piece)) =~~= str_views(parts@).push(piece@));
                assert(s@.subrange(i + 1, i + 1) =~= Seq::<char>::empty());
            }
            parts.push(piece);
            start = i + 1;
        } else {
            proof {
                let p = str_views(parts@).push(s@.subrange(start as int, i as int));
                assert(p.drop_last() =~~= str_views(parts@));
                assert(p.last() == s@.subrange(start as int, i as int));
                assert(s@.subrange(start as int, i as int).push(s@[i as int]) =~= s@.subrange(
                    start as int,
                    i + 1,
                ));
            }
        }
        i = i + 1;
    }
    let piece = String::from_str(s.substring_char(start, n));
    proof {
        assert(s@.take(n as int) =~= s@);
        assert(str_views(parts@.push(piece)) =~~= str_views(parts@).push(piece@));
    }
    parts.push(piece);
    parts
}

/// Joins the labels from `from` onward with the domain separator.
pub fn join_range(labels: &Vec<String>, from: usize) -> (r: String)
    requires
        from <= labels@.len(),
    ensures
        r@ == join_labels(str_views(labels@).skip(from as int)),
{
    let ghost whole = str_views(labels@).skip(from as int);
    let mut r = String::new();
    let mut i: usize = from;
    while i < labels.len()
        invariant
            from <= i <= labels@.len(),
            whole == str_views(labels@).skip(from as int),
            r@ == join_labels(whole.take(i - from)),
        decreases labels@.len() - i,
    {
        proof {
            let t = whole.take(i + 1 - from);
            assert(t.drop_last() =~~= whole.take(i - from));
            assert(t.last() =~= labels@[i as int]@);
        }
        if i > from {
            r.append(".");
            proof {
                reveal_strlit(".");
                assert("."@ =~= seq![sep_char()]);
            }
        }
        r.append(labels[i].as_str());
        proof {
            let t = whole.take(i + 1 - from);
            if i == from {
                assert(t.len() == 1);
                assert(r@ =~= join_labels(t));
            } else {
                assert(t.len() >= 2);
                assert(r@ =~= join_labels(t.drop_last()) + seq![sep_char()] + t.last());
            }
        }
        i = i + 1;
    }
    proof {
        assert(whole.take(labels@.len() - from) =~~= whole);
    }
    r
}

} // verus!
