//! The eviction order: oldest timestamp first, entries with equal
//! timestamps in the order they were read.

use vstd::prelude::*;
use vstd::relations::{sorted_by, total_ordering};
use vstd::seq_lib::{group_to_multiset_ensures, lemma_multiset_commutative, lemma_sorted_unique, to_multiset_build};
use vstd::multiset::group_multiset_axioms;

verus! {

/// `a` is evicted no later than `b`, each being a timestamp and the
/// position at which its entry was read.
pub open spec fn older_or_same(a: (u64, usize), b: (u64, usize)) -> bool {
    a.0 < b.0 || (a.0 == b.0 && a.1 <= b.1)
}

/// The eviction order as a relation.
pub open spec fn age_order() -> spec_fn((u64, usize), (u64, usize)) -> bool {
    |a: (u64, usize), b: (u64, usize)| older_or_same(a, b)
}

/// Every earlier element is evicted no later than every later one.
pub open spec fn sorted_by_age(s: Seq<(u64, usize)>) -> bool {
    forall|i: int, j: int| 0 <= i < j < s.len() ==> #[trigger] older_or_same(s[i], s[j])
}

/// The eviction order is a total order.
pub proof fn lemma_age_order_total()
    ensures
        total_ordering(age_order()),
{
}

/// `sorted_by_age` is vstd's `sorted_by` for the eviction order.
pub proof fn lemma_sorted_by_age_is_sorted_by(s: Seq<(u64, usize)>)
    ensures
        sorted_by_age(s) <==> sorted_by(s, age_order()),
{
    if sorted_by_age(s) {
        assert forall|i: int, j: int| 0 <= i < j < s.len() implies #[trigger] (age_order())(
            s[i],
            s[j],
        ) by {
            assert(older_or_same(s[i], s[j]));
        }
    }
    if sorted_by(s, age_order()) {
        assert forall|i: int, j: int| 0 <= i < j < s.len() implies #[trigger] older_or_same(
            s[i],
            s[j],
        ) by {
            assert((age_order())(s[i], s[j]));
        }
    }
}

/// A sequence sorted by age with the elements of `s` is the sort of `s`.
pub proof fn lemma_sorted_is_sort(s: Seq<(u64, usize)>, sorted: Seq<(u64, usize)>)
    requires
        sorted_by_age(sorted),
        sorted.to_multiset() == s.to_multiset(),
    ensures
        sorted == s.sort_by(age_order()),
{
    lemma_age_order_total();
    s.lemma_sort_by_ensures(age_order());
    lemma_sorted_by_age_is_sorted_by(sorted);
    lemma_sorted_unique(sorted, s.sort_by(age_order()), age_order());
}

fn precedes(a: (u64, usize), b: (u64, usize)) -> (r: bool)
    ensures
        r == older_or_same(a, b),
{
    a.0 < b.0 || (a.0 == b.0 && a.1 <= b.1)
}

/// Merge two sequences sorted by age into one.
fn merge(left: Vec<(u64, usize)>, right: Vec<(u64, usize)>) -> (out: Vec<(u64, usize)>)
    requires
        sorted_by_age(left@),
        sorted_by_age(right@),
    ensures
        sorted_by_age(out@),
        out@.to_multiset() == left@.to_multiset().add(right@.to_multiset()),
{
    broadcast use group_to_multiset_ensures, group_multiset_axioms;

    let mut out: Vec<(u64, usize)> = Vec::new();
    let mut i: usize = 0;
    let mut j: usize = 0;
    while i < left.len() || j < right.len()
        invariant
            i <= left@.len(),
            j <= right@.len(),
            sorted_by_age(left@),
            sorted_by_age(right@),
            sorted_by_age(out@),
            out@.to_multiset() == left@.subrange(0, i as int).to_multiset().add(
                right@.subrange(0, j as int).to_multiset(),
            ),
            out@.len() > 0 && i < left@.len() ==> older_or_same(out@.last(), left@[i as int]),
            out@.len() > 0 && j < right@.len() ==> older_or_same(out@.last(), right@[j as int]),
        decreases left@.len() - i + right@.len() - j,
    {
        let ghost before = out@;
        let take_left = j >= right.len() || (i < left.len() && precedes(left[i], right[j]));
        let x = if take_left {
            left[i]
        } else {
            right[j]
        };
        out.push(x);
        proof {
            assert forall|a: int, b: int| 0 <= a < b < out@.len() implies #[trigger] older_or_same(
                out@[a],
                out@[b],
            ) by {
                if b == out@.len() - 1 && a < b {
                    assert(older_or_same(before[a], before.last()));
                }
            }
        }
        if take_left {
            proof {
                let l0 = left@.subrange(0, i as int);
                let r0 = right@.subrange(0, j as int);
                assert(left@.subrange(0, i + 1) =~= l0.push(x));
                assert(out@ == before.push(x));
                to_multiset_build(before, x);
                to_multiset_build(l0, x);
                assert(l0.push(x).to_multiset() == l0.to_multiset().insert(x));
                assert(l0.to_multiset().insert(x).add(r0.to_multiset()) =~= l0.to_multiset().add(
                    r0.to_multiset(),
                ).insert(x));
            }
            i = i + 1;
            proof {
                if i < left@.len() {
                    assert(older_or_same(left@[i - 1], left@[i as int]));
                }
            }
        } else {
            proof {
                let l0 = left@.subrange(0, i as int);
                let r0 = right@.subrange(0, j as int);
                assert(right@.subrange(0, j + 1) =~= r0.push(x));
                assert(out@ == before.push(x));
                to_multiset_build(before, x);
                to_multiset_build(r0, x);
                assert(r0.push(x).to_multiset() == r0.to_multiset().insert(x));
                assert(l0.to_multiset().add(r0.to_multiset().insert(x)) =~= l0.to_multiset().add(
                    r0.to_multiset(),
                ).insert(x));
                if i < left@.len() {
                    assert(!older_or_same(left@[i as int], right@[j as int]));
                }
            }
            j = j + 1;
            proof {
                if j < right@.len() {
                    assert(older_or_same(right@[j - 1], right@[j as int]));
                }
            }
        }
    }
    proof {
        assert(left@.subrange(0, i as int) =~= left@);
        assert(right@.subrange(0, j as int) =~= right@);
    }
    out
}

/// Sort by age: the result holds the same elements, oldest first, ties by
/// position.
pub fn sort_by_age(v: Vec<(u64, usize)>) -> (out: Vec<(u64, usize)>)
    ensures
        sorted_by_age(out@),
        out@.to_multiset() == v@.to_multiset(),
    decreases v@.len(),
{
    if v.len() <= 1 {
        return v;
    }
    let ghost whole = v@;
    let mut left = v;
    let mid = left.len() / 2;
    let right = left.split_off(mid);
    proof {
        assert(whole =~= left@ + right@);
        lemma_multiset_commutative(left@, right@);
    }
    let sorted_left = sort_by_age(left);
    let sorted_right = sort_by_age(right);
    merge(sorted_left, sorted_right)
}

} // verus!
