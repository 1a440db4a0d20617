//! Reading and comparing `major.minor.patch` version strings.

use vstd::prelude::*;
use std::cmp::Ordering;
use crate::strmap::views_of;
use crate::text::{chars_of, split_on, split_spec};

verus! {

/// Whether `c` is an ASCII decimal digit.
pub open spec fn is_digit(c: char) -> bool {
    '0' <= c <= '9'
}

/// The value of a run of decimal digits.
pub open spec fn digits_value(s: Seq<char>) -> nat
    decreases s.len(),
{
    if s.len() == 0 {
        0
    } else {
        digits_value(s.drop_last()) * 10 + ((s.last() as u32) - 48) as nat
    }
}

/// A run of digits is worth at least any of its prefixes.
pub proof fn lemma_digits_value_grows(s: Seq<char>, i: int)
    requires
        0 <= i <= s.len(),
        forall|j: int| 0 <= j < s.len() ==> is_digit(#[trigger] s[j]),
    ensures
        digits_value(s.take(i)) <= digits_value(s),
    decreases s.len() - i,
{
    if i < s.len() {
        lemma_digits_value_grows(s, i + 1);
        assert(s.take(i + 1).drop_last() =~= s.take(i));
    } else {
        assert(s.take(i) =~= s);
    }
}

/// Whether every character of `d` is a digit.
pub open spec fn all_digits(d: Seq<char>) -> bool {
    forall|j: int| 0 <= j < d.len() ==> is_digit(#[trigger] d[j])
}

/// What `str::parse::<u32>` gives: an optional `+`, then one or more ASCII digits,
/// of value at most `u32::MAX`.
pub open spec fn parse_u32_spec(s: Seq<char>) -> Option<u32> {
    let d = if s.len() > 0 && s[0] == '+' { s.drop_first() } else { s };
    if d.len() > 0 && all_digits(d) && digits_value(d) <= u32::MAX {
        Some(digits_value(d) as u32)
    } else {
        None
    }
}

/// Reads an unsigned 32-bit number the way `str::parse::<u32>` does.
pub fn parse_u32(s: &str) -> (r: Option<u32>)
    ensures
        r == parse_u32_spec(s@),
{
    let v = chars_of(s);
    let start: usize = if v.len() > 0 && v[0] == '+' { 1 } else { 0 };
    let ghost d = if s@.len() > 0 && s@[0] == '+' { s@.drop_first() } else { s@ };
    assert(d =~= v@.subrange(start as int, v@.len() as int));
    if start >= v.len() {
        return None;
    }
    let mut acc: u64 = 0;
    let mut i = start;
    while i < v.len()
        invariant
            start <= i <= v@.len(),
            v@ == s@,
            d == v@.subrange(start as int, v@.len() as int),
            d == (if s@.len() > 0 && s@[0] == '+' { s@.drop_first() } else { s@ }),
            forall|j: int| start <= j < i ==> is_digit(#[trigger] v@[j]),
            acc == digits_value(v@.subrange(start as int, i as int)),
            acc <= u32::MAX,
        decreases v@.len() - i,
    {
        let c = v[i];
        if !('0' <= c && c <= '9') {
            assert(d[i - start] == c);
            assert(!is_digit(d[i - start]));
            assert(0 <= i - start < d.len());
            assert(!all_digits(d));
            return None;
        }
        assert(v@.subrange(start as int, i + 1).drop_last() =~= v@.subrange(start as int, i as int));
        let digit = (c as u32 - 48) as u64;
        acc = acc * 10 + digit;
        if acc > 0xFFFF_FFFF {
            proof {
                let prefix_len = i + 1 - start;
                assert(d.take(prefix_len as int) =~= v@.subrange(start as int, i + 1));
                if all_digits(d) {
                    lemma_digits_value_grows(d, prefix_len as int);
                }
            }
            return None;
        }
        i = i + 1;
    }
    assert(v@.subrange(start as int, v@.len() as int) == d);
    Some(acc as u32)
}

/// The version text with one leading `v` dropped.
pub open spec fn without_v(s: Seq<char>) -> Seq<char> {
    if s.len() > 0 && s[0] == 'v' {
        s.drop_first()
    } else {
        s
    }
}

/// The first three dot-separated numbers of a version, if they all read as `u32`.
pub open spec fn parse_version_spec(s: Seq<char>) -> Option<(u32, u32, u32)> {
    let parts = split_spec(without_v(s), '.');
    if parts.len() >= 3 && parse_u32_spec(parts[0]) is Some && parse_u32_spec(parts[1]) is Some
        && parse_u32_spec(parts[2]) is Some {
        Some((parse_u32_spec(parts[0])->0, parse_u32_spec(parts[1])->0, parse_u32_spec(parts[2])->0))
    } else {
        None
    }
}

/// Reads `major.minor.patch` from a version string (an optional leading `v` is skipped;
/// parts after the third are ignored).
pub fn parse_version(version_str: &str) -> (r: Option<(u32, u32, u32)>)
    ensures
        r == parse_version_spec(version_str@),
{
    let v = chars_of(version_str);
    let body: String = if v.len() > 0 && v[0] == 'v' {
        crate::text::string_of_range(&v, 1, v.len())
    } else {
        crate::text::string_of_range(&v, 0, v.len())
    };
    proof {
        if v@.len() > 0 && v@[0] == 'v' {
            assert(v@.subrange(1, v@.len() as int) =~= version_str@.drop_first());
        } else {
            assert(v@.subrange(0, v@.len() as int) =~= version_str@);
        }
    }
    let parts = split_on(body.as_str(), '.');
    if parts.len() < 3 {
        return None;
    }
    proof {
        assert(views_of(parts@)[0] == parts@[0]@);
        assert(views_of(parts@)[1] == parts@[1]@);
        assert(views_of(parts@)[2] == parts@[2]@);
    }
    let a = parse_u32(parts[0].as_str());
    let b = parse_u32(parts[1].as_str());
    let c = parse_u32(parts[2].as_str());
    match (a, b, c) {
        (Some(x), Some(y), Some(z)) => Some((x, y, z)),
        _ => None,
    }
}

/// How two numbers compare.
pub open spec fn order_of(a: u32, b: u32) -> Ordering {
    if a < b {
        Ordering::Less
    } else if a == b {
        Ordering::Equal
    } else {
        Ordering::Greater
    }
}

/// The order of two version triples: by major, then minor, then patch.
pub open spec fn order_versions(x: (u32, u32, u32), y: (u32, u32, u32)) -> Ordering {
    if x.0 != y.0 {
        order_of(x.0, y.0)
    } else if x.1 != y.1 {
        order_of(x.1, y.1)
    } else {
        order_of(x.2, y.2)
    }
}

/// How two version strings compare, when both read as versions.
pub open spec fn compare_versions_spec(v1: Seq<char>, v2: Seq<char>) -> Option<Ordering> {
    match (parse_version_spec(v1), parse_version_spec(v2)) {
        (Some(x), Some(y)) => Some(order_versions(x, y)),
        _ => None,
    }
}

/// How two numbers compare.
fn order_exec(a: u32, b: u32) -> (o: Ordering)
    ensures
        o == order_of(a, b),
{
    if a < b {
        Ordering::Less
    } else if a == b {
        Ordering::Equal
    } else {
        Ordering::Greater
    }
}

/// Compares two versions by major, minor and patch; `None` when either does not read.
pub fn compare_versions(v1: &str, v2: &str) -> (r: Option<Ordering>)
    ensures
        r == compare_versions_spec(v1@, v2@),
{
    match (parse_version(v1), parse_version(v2)) {
        (Some((m1, n1, p1)), Some((m2, n2, p2))) => {
            if m1 != m2 {
                Some(order_exec(m1, m2))
            } else if n1 != n2 {
                Some(order_exec(n1, n2))
            } else {
                Some(order_exec(p1, p2))
            }
        },
        _ => None,
    }
}

/// The reverse of an order.
pub open spec fn reversed(o: Ordering) -> Ordering {
    match o {
        Ordering::Less => Ordering::Greater,
        Ordering::Equal => Ordering::Equal,
        Ordering::Greater => Ordering::Less,
    }
}

/// Comparing in the other direction gives the reverse order, and nothing exactly when
/// one side does not read as a version.
pub proof fn law_compare_versions_antisymmetric(v1: Seq<char>, v2: Seq<char>)
    ensures
        compare_versions_spec(v1, v2) is Some == compare_versions_spec(v2, v1) is Some,
        compare_versions_spec(v1, v2) matches Some(o) ==> compare_versions_spec(v2, v1) == Some(
            reversed(o),
        ),
{
}

/// A version that reads compares equal to itself.
pub proof fn law_compare_versions_reflexive(v: Seq<char>)
    requires
        parse_version_spec(v) is Some,
    ensures
        compare_versions_spec(v, v) == Some(Ordering::Equal),
{
}

/// Versions compare like their triples, so the order is transitive.
pub proof fn law_compare_versions_transitive(a: Seq<char>, b: Seq<char>, c: Seq<char>)
    requires
        compare_versions_spec(a, b) == Some(Ordering::Less),
        compare_versions_spec(b, c) == Some(Ordering::Less),
    ensures
        compare_versions_spec(a, c) == Some(Ordering::Less),
{
}

} // verus!
