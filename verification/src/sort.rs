//! Sorting: numbers in ascending order, and positions by key with ties kept in order.

use vstd::prelude::*;
use vstd::relations::{sorted_by, total_ordering};

verus! {

broadcast use vstd::seq_lib::group_to_multiset_ensures;

/// The ascending order on sizes.
pub open spec fn size_leq() -> spec_fn(u64, u64) -> bool {
    |a: u64, b: u64| a <= b
}

/// `size_leq` is a total order.
pub proof fn lemma_size_leq_total()
    ensures
        total_ordering(size_leq()),
{
    assert(vstd::relations::reflexive(size_leq()));
    assert(vstd::relations::antisymmetric(size_leq()));
    assert(vstd::relations::transitive(size_leq()));
    assert(vstd::relations::strongly_connected(size_leq()));
}

/// The numbers of `v` in ascending order.
pub fn sort_sizes(v: &Vec<u64>) -> (r: Vec<u64>)
    ensures
        r@ == v@.sort_by(size_leq()),
{
    let mut r: Vec<u64> = Vec::new();
    let mut i: usize = 0;
    while i < v.len()
        invariant
            i <= v@.len(),
            sorted_by(r@, size_leq()),
            r@.to_multiset() == v@.take(i as int).to_multiset(),
        decreases v@.len() - i,
    {
        let x = v[i];
        let mut j: usize = 0;
        while j < r.len() && r[j] <= x
            invariant
                j <= r@.len(),
                forall|k: int| 0 <= k < j ==> r@[k] <= x,
            decreases r@.len() - j,
        {
            j = j + 1;
        }
        let ghost before = r@;
        r.insert(j, x);
        proof {
            assert(r@ == before.insert(j as int, x));
            assert forall|a: int, b: int| 0 <= a < b < r@.len() implies #[trigger] (size_leq())(r@[a], r@[b]) by {
                if a < j && b == j {
                } else if a == j && b > j {
                    if j < before.len() {
                        assert(before[j as int] > x);
                        assert((size_leq())(before[j as int], before[b - 1]) || b - 1 == j);
                    }
                } else if a < j && b > j {
                    assert((size_leq())(before[a], before[b - 1]));
                } else if b < j {
                    assert((size_leq())(before[a], before[b]));
                } else {
                    assert((size_leq())(before[a - 1], before[b - 1]));
                }
            }
            vstd::seq_lib::to_multiset_insert(before, j as int, x);
            assert(v@.take(i + 1) =~= v@.take(i as int).push(x));
        }
        i = i + 1;
    }
    proof {
        assert(v@.take(v@.len() as int) =~= v@);
        lemma_size_leq_total();
        v@.lemma_sort_by_ensures(size_leq());
        vstd::seq_lib::lemma_sorted_unique(r@, v@.sort_by(size_leq()), size_leq());
    }
    r
}

/// `s` (positions sorted by `keys`) with `x` placed after the last position whose key is
/// not above the key of `x`.
pub open spec fn insert_by_key(s: Seq<usize>, keys: Seq<i128>, x: usize) -> Seq<usize>
    decreases s.len(),
{
    if s.len() == 0 || keys[s.last() as int] <= keys[x as int] {
        s.push(x)
    } else {
        insert_by_key(s.drop_last(), keys, x).push(s.last())
    }
}

/// The positions `0..n` ordered by ascending key, positions with equal keys in their own
/// order (a stable sort by key).
pub open spec fn stable_order(keys: Seq<i128>, n: nat) -> Seq<usize>
    decreases n,
{
    if n == 0 {
        Seq::empty()
    } else {
        insert_by_key(stable_order(keys, (n - 1) as nat), keys, (n - 1) as usize)
    }
}

/// Inserting after the last position whose key is not above is inserting at `j`.
proof fn lemma_insert_at(s: Seq<usize>, keys: Seq<i128>, x: usize, j: int)
    requires
        0 <= j <= s.len(),
        forall|t: int| j <= t < s.len() ==> keys[#[trigger] s[t] as int] > keys[x as int],
        j == 0 || keys[s[j - 1] as int] <= keys[x as int],
    ensures
        insert_by_key(s, keys, x) == s.insert(j, x),
    decreases s.len(),
{
    if s.len() == j {
        assert(s.insert(j, x) =~= s.push(x));
    } else {
        assert(keys[s.last() as int] > keys[x as int]);
        let p = s.drop_last();
        assert forall|t: int| j <= t < p.len() implies keys[#[trigger] p[t] as int] > keys[x as int] by {
            assert(p[t] == s[t]);
        }
        if j > 0 {
            assert(p[j - 1] == s[j - 1]);
        }
        lemma_insert_at(p, keys, x, j);
        assert(p.insert(j, x).push(s.last()) =~= s.insert(j, x));
    }
}

/// The positions of `keys` in ascending order of key, ties in position order.
pub fn stable_order_of(keys: &Vec<i128>) -> (r: Vec<usize>)
    ensures
        r@ == stable_order(keys@, keys@.len()),
        forall|t: int| 0 <= t < r@.len() ==> r@[t] < keys@.len(),
{
    let mut r: Vec<usize> = Vec::new();
    let n = keys.len();
    let mut i: usize = 0;
    while i < n
        invariant
            i <= n == keys@.len(),
            r@ == stable_order(keys@, i as nat),
            forall|t: int| 0 <= t < r@.len() ==> r@[t] < i,
        decreases n - i,
    {
        let mut j = r.len();
        while j > 0 && keys[r[j - 1]] > keys[i]
            invariant
                i < n == keys@.len(),
                j <= r@.len(),
                forall|t: int| 0 <= t < r@.len() ==> r@[t] < i,
                forall|t: int| j <= t < r@.len() ==> keys@[#[trigger] r@[t] as int] > keys@[i as int],
            decreases j,
        {
            j = j - 1;
        }
        proof {
            lemma_insert_at(r@, keys@, i, j as int);
        }
        r.insert(j, i);
        proof {
            assert forall|t: int| 0 <= t < r@.len() implies r@[t] < i + 1 by {
                if t != j {
                    if t < j {
                        assert(r@[t] == stable_order(keys@, i as nat)[t]);
                    } else {
                        assert(r@[t] == stable_order(keys@, i as nat)[t - 1]);
                    }
                }
            }
        }
        i = i + 1;
    }
    r
}

} // verus!
