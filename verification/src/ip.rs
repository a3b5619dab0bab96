//! Syntax of IP literals in email host parts: dotted-quad IPv4 addresses
//! and textual IPv6 addresses with an optional `::` compression.

use vstd::prelude::*;

verus! {

use vstd::string::StrSliceExecFns;
use crate::label::is_digit;
use crate::text::{has_char, is_digit_c, is_hex_c, split_on, split_str, str_views};

/// The numeric value of a decimal digit string.
pub open spec fn dec_val(l: Seq<char>) -> int
    decreases l.len(),
{
    if l.len() == 0 {
        0
    } else {
        dec_val(l.drop_last()) * 10 + (l.last() as u32 - 48)
    }
}

pub proof fn lemma_dec_val_bounds(l: Seq<char>)
    requires
        forall|i: int| 0 <= i < l.len() ==> is_digit_c(#[trigger] l[i]),
    ensures
        0 <= dec_val(l),
        l.len() <= 1 ==> dec_val(l) < 10,
        l.len() <= 2 ==> dec_val(l) < 100,
        l.len() <= 3 ==> dec_val(l) < 1000,
    decreases l.len(),
{
    if l.len() > 0 {
        assert(forall|i: int| 0 <= i < l.drop_last().len() ==> is_digit_c(
            #[trigger] l.drop_last()[i],
        ));
        lemma_dec_val_bounds(l.drop_last());
        assert(is_digit_c(l[l.len() - 1]));
    }
}

/// One octet of a dotted-quad IPv4 address: one to three digits, no
/// leading zero, value at most 255.
pub open spec fn ipv4_group_ok(g: Seq<char>) -> bool {
    &&& 1 <= g.len() <= 3
    &&& (forall|i: int| 0 <= i < g.len() ==> is_digit_c(#[trigger] g[i]))
    &&& (g.len() > 1 ==> g[0] != '0')
    &&& dec_val(g) <= 255
}

/// A dotted-quad IPv4 address: exactly four valid octets.
pub open spec fn ipv4_ok(s: Seq<char>) -> bool {
    let g = split_on(s, '.');
    g.len() == 4 && (forall|i: int| 0 <= i < g.len() ==> ipv4_group_ok(#[trigger] g[i]))
}

/// One group of a textual IPv6 address: one to four hexadecimal digits.
pub open spec fn hex_group_ok(g: Seq<char>) -> bool {
    1 <= g.len() <= 4 && (forall|i: int| 0 <= i < g.len() ==> is_hex_c(#[trigger] g[i]))
}

/// The positions of the empty parts of a colon-split, in increasing order.
/// A `::` compression shows up in the split as empty parts: two leading
/// ones for a leading `::`, two trailing ones for a trailing `::`, one
/// inner one otherwise, and three for `::` alone.
pub open spec fn empty_indices(g: Seq<Seq<char>>) -> Seq<int>
    decreases g.len(),
{
    if g.len() == 0 {
        Seq::<int>::empty()
    } else {
        let p = empty_indices(g.drop_last());
        if g.last().len() == 0 {
            p.push(g.len() - 1)
        } else {
            p
        }
    }
}

pub open spec fn all_hex_groups(g: Seq<Seq<char>>) -> bool {
    forall|i: int| 0 <= i < g.len() ==> ((#[trigger] g[i]).len() == 0 || hex_group_ok(g[i]))
}

/// A textual IPv6 address: eight hex groups, or fewer with exactly one
/// `::` compression standing for at least one zero group.
pub open spec fn ipv6_ok(s: Seq<char>) -> bool {
    let g = split_on(s, ':');
    let e = empty_indices(g);
    let n = g.len() as int;
    &&& all_hex_groups(g)
    &&& {
        ||| (n == 8 && e.len() == 0)
        ||| (3 <= n <= 8 && e.len() == 1 && 1 <= e[0] <= n - 2)
        ||| (3 <= n <= 9 && e.len() == 2 && e[0] == 0 && e[1] == 1)
        ||| (3 <= n <= 9 && e.len() == 2 && e[0] == n - 2 && e[1] == n - 1)
        ||| (n == 3 && e.len() == 3)
    }
}

/// An IP literal's content: an IPv6 address when a colon occurs in it, a
/// dotted-quad IPv4 address otherwise.
pub open spec fn ip_literal_ok(s: Seq<char>) -> bool {
    if has_char(s, ':') {
        ipv6_ok(s)
    } else {
        ipv4_ok(s)
    }
}

fn contains_colon(s: &str) -> (b: bool)
    ensures
        b == has_char(s@, ':'),
{
    let n = s.unicode_len();
    let mut i: usize = 0;
    while i < n
        invariant
            0 <= i <= n,
            n == s@.len(),
            forall|j: int| 0 <= j < i ==> #[trigger] s@[j] != ':',
        decreases n - i,
    {
        if s.get_char(i) == ':' {
            return true;
        }
        i = i + 1;
    }
    false
}

fn check_ipv4_group(p: &str) -> (b: bool)
    ensures
        b == ipv4_group_ok(p@),
{
    let n = p.unicode_len();
    if n < 1 || n > 3 {
        return false;
    }
    let mut i: usize = 0;
    while i < n
        invariant
            0 <= i <= n,
            n == p@.len(),
            1 <= n <= 3,
            forall|j: int| 0 <= j < i ==> is_digit_c(#[trigger] p@[j]),
        decreases n - i,
    {
        if !is_digit(p.get_char(i)) {
            return false;
        }
        i = i + 1;
    }
    if n > 1 && p.get_char(0) == '0' {
        return false;
    }
    let mut v: u32 = 0;
    let mut i: usize = 0;
    while i < n
        invariant
            0 <= i <= n,
            n == p@.len(),
            1 <= n <= 3,
            forall|j: int| 0 <= j < n ==> is_digit_c(#[trigger] p@[j]),
            v as int == dec_val(p@.take(i as int)),
            v < 1000,
        decreases n - i,
    {
        let c = p.get_char(i);
        proof {
            assert(p@.take(i + 1).drop_last() =~= p@.take(i as int));
            assert(p@.take(i + 1).last() == p@[i as int]);
            assert(forall|j: int| 0 <= j < p@.take(i as int).len() ==> is_digit_c(
                #[trigger] p@.take(i as int)[j],
            ));
            lemma_dec_val_bounds(p@.take(i as int));
            assert(i <= 2 ==> v < 100);
        }
        v = v * 10 + (c as u32 - 48);
        i = i + 1;
    }
    proof {
        assert(p@.take(n as int) =~= p@);
    }
    v <= 255
}

fn check_ipv4(s: &str) -> (b: bool)
    ensures
        b == ipv4_ok(s@),
{
    let g = split_str(s, '.');
    let ghost gv = str_views(g@);
    if g.len() != 4 {
        return false;
    }
    let mut i: usize = 0;
    while i < 4
        invariant
            0 <= i <= 4,
            g@.len() == 4,
            gv == str_views(g@),
            gv == split_on(s@, '.'),
            forall|j: int| 0 <= j < i ==> ipv4_group_ok(#[trigger] gv[j]),
        decreases 4 - i,
    {
        if !check_ipv4_group(g[i].as_str()) {
            proof {
                assert(!ipv4_group_ok(gv[i as int]));
            }
            return false;
        }
        i = i + 1;
    }
    true
}

fn check_hex_group(p: &str) -> (b: bool)
    ensures
        b == hex_group_ok(p@),
{
    let n = p.unicode_len();
    if n < 1 || n > 4 {
        return false;
    }
    let mut i: usize = 0;
    while i < n
        invariant
            0 <= i <= n,
            n == p@.len(),
            1 <= n <= 4,
            forall|j: int| 0 <= j < i ==> is_hex_c(#[trigger] p@[j]),
        decreases n - i,
    {
        let c = p.get_char(i);
        let u = c as u32;
        let hex = (48 <= u && u <= 57) || (65 <= u && u <= 70) || (97 <= u && u <= 102);
        if !hex {
            return false;
        }
        i = i + 1;
    }
    true
}

fn check_ipv6(s: &str) -> (b: bool)
    ensures
        b == ipv6_ok(s@),
{
    let g = split_str(s, ':');
    let ghost gv = str_views(g@);
    let n = g.len();
    let mut allhex = true;
    let mut empties: Vec<usize> = Vec::new();
    let mut i: usize = 0;
    proof {
        assert(gv.take(0) =~~= Seq::<Seq<char>>::empty());
        assert(empties@.map_values(|u: usize| u as int) =~= empty_indices(gv.take(0)));
    }
    while i < n
        invariant
            0 <= i <= n,
            n == g@.len(),
            gv == str_views(g@),
            gv == split_on(s@, ':'),
            allhex == (forall|j: int|
                0 <= j < i ==> ((#[trigger] gv[j]).len() == 0 || hex_group_ok(gv[j]))),
            empties@.map_values(|u: usize| u as int) == empty_indices(gv.take(i as int)),
            forall|k: int| 0 <= k < empties@.len() ==> #[trigger] empties@[k] < i,
        decreases n - i,
    {
        proof {
            assert(gv.take(i + 1).drop_last() =~~= gv.take(i as int));
            assert(gv.take(i + 1).last() =~= gv[i as int]);
        }
        let part = g[i].as_str();
        if part.is_empty() {
            let ghost em0 = empties@;
            empties.push(i);
            proof {
                assert(empties@.map_values(|u: usize| u as int) =~= em0.map_values(
                    |u: usize| u as int,
                ).push(i as int));
            }
        } else {
            if !check_hex_group(part) {
                allhex = false;
            }
        }
        i = i + 1;
    }
    proof {
        assert(gv.take(n as int) =~~= gv);
    }
    if !allhex {
        return false;
    }
    let e_len = empties.len();
    proof {
        assert(empties@.map_values(|u: usize| u as int).len() == e_len);
        if e_len >= 1 {
            assert(empties@.map_values(|u: usize| u as int)[0] == empties@[0] as int);
        }
        if e_len >= 2 {
            assert(empties@.map_values(|u: usize| u as int)[1] == empties@[1] as int);
        }
    }
    let ok = (n == 8 && e_len == 0) || (3 <= n && n <= 8 && e_len == 1 && 1 <= empties[0]
        && empties[0] <= n - 2) || (3 <= n && n <= 9 && e_len == 2 && empties[0] == 0
        && empties[1] == 1) || (3 <= n && n <= 9 && e_len == 2 && empties[0] == n - 2
        && empties[1] == n - 1) || (n == 3 && e_len == 3);
    ok
}

/// Validates the content of a bracketed IP literal.
pub fn check_ip_literal(s: &str) -> (b: bool)
    ensures
        b == ip_literal_ok(s@),
{
    if contains_colon(s) {
        check_ipv6(s)
    } else {
        check_ipv4(s)
    }
}

} // verus!
