//! Size-bounded eviction: which entries to remove, oldest first, until the
//! stored value bytes fit a target.

use vstd::prelude::*;
use vstd::bytes::u64_from_le_bytes;
use vstd::multiset::group_multiset_axioms;
use vstd::seq_lib::group_to_multiset_ensures;
use vstd::slice::slice_subrange;

use crate::entry::entry_timestamp;
use crate::order::{age_order, lemma_age_order_total, lemma_sorted_by_age_is_sorted_by, lemma_sorted_is_sort, older_or_same, sort_by_age, sorted_by_age};

verus! {

/// What eviction knows of one stored entry: its timestamp, its key and the
/// size of its value in bytes.
pub type Record = (u64, [u8; 32], u64);

/// The total size of the records.
pub open spec fn total_size(recs: Seq<Record>) -> int
    decreases recs.len(),
{
    if recs.len() == 0 {
        0
    } else {
        total_size(recs.drop_last()) + recs.last().2
    }
}

/// Each record's timestamp with its position, in the order the records
/// were read.
pub open spec fn read_order(recs: Seq<Record>) -> Seq<(u64, usize)> {
    Seq::new(recs.len(), |i: int| (recs[i].0, i as usize))
}

/// The order in which records are evicted: oldest timestamp first, records
/// with equal timestamps in the order they were read.
pub open spec fn eviction_order(recs: Seq<Record>) -> Seq<(u64, usize)> {
    read_order(recs).sort_by(age_order())
}

/// The size of the record at the position that `p` names.
pub open spec fn size_at(recs: Seq<Record>, p: (u64, usize)) -> int {
    if p.1 < recs.len() {
        recs[p.1 as int].2 as int
    } else {
        0
    }
}

/// The total size of the records at the positions that `s` names.
pub open spec fn sum_sizes(recs: Seq<Record>, s: Seq<(u64, usize)>) -> int
    decreases s.len(),
{
    if s.len() == 0 {
        0
    } else {
        sum_sizes(recs, s.drop_last()) + size_at(recs, s.last())
    }
}

/// The bytes that stay stored once the first `k` records in eviction order
/// are removed.
pub open spec fn kept_size(recs: Seq<Record>, k: int) -> int {
    sum_sizes(recs, eviction_order(recs).subrange(k, recs.len() as int))
}

/// The record at position `i` has a place in the eviction order.
pub open spec fn listed(recs: Seq<Record>, i: int) -> bool {
    exists|m: int| 0 <= m < recs.len() && #[trigger] eviction_order(recs)[m].1 == i
}

/// The keys of the first `k` records in eviction order.
pub open spec fn evicted_keys(recs: Seq<Record>, k: nat) -> Seq<[u8; 32]> {
    Seq::new(k, |m: int| recs[eviction_order(recs)[m].1 as int].1)
}

/// Sizes are the stored value lengths, counted whole: the total of no
/// records is 0, each further record adds its size, and the size of the
/// record a position names is that record's size.
pub proof fn lemma_sizes_are_value_lengths(recs: Seq<Record>, r: Record, s: Seq<(u64, usize)>, p: (u64, usize))
    ensures
        total_size(Seq::<Record>::empty()) == 0,
        total_size(recs.push(r)) == total_size(recs) + r.2,
        p.1 < recs.len() ==> size_at(recs, p) == recs[p.1 as int].2,
        sum_sizes(recs, Seq::<(u64, usize)>::empty()) == 0,
        sum_sizes(recs, s.push(p)) == sum_sizes(recs, s) + size_at(recs, p),
{
    assert(recs.push(r).drop_last() =~= recs);
    assert(s.push(p).drop_last() =~= s);
}

/// Records are read in order, each under its own position, and the keys
/// evicted are those of the records the eviction order names.
pub proof fn lemma_read_and_evicted_positions(recs: Seq<Record>, k: nat)
    requires
        recs.len() <= usize::MAX,
    ensures
        read_order(recs).len() == recs.len(),
        forall|i: int| 0 <= i < recs.len() ==> #[trigger] read_order(recs)[i] == (recs[i].0, i as usize),
        evicted_keys(recs, k).len() == k,
        forall|m: int| 0 <= m < k ==> #[trigger] evicted_keys(recs, k)[m] == recs[eviction_order(recs)[m].1 as int].1,
{
}

proof fn lemma_sum_sizes_nonneg(recs: Seq<Record>, s: Seq<(u64, usize)>)
    ensures
        sum_sizes(recs, s) >= 0,
    decreases s.len(),
{
    if s.len() > 0 {
        lemma_sum_sizes_nonneg(recs, s.drop_last());
    }
}

proof fn lemma_sum_sizes_concat(recs: Seq<Record>, a: Seq<(u64, usize)>, b: Seq<(u64, usize)>)
    ensures
        sum_sizes(recs, a + b) == sum_sizes(recs, a) + sum_sizes(recs, b),
    decreases b.len(),
{
    if b.len() == 0 {
        assert(a + b =~= a);
    } else {
        lemma_sum_sizes_concat(recs, a, b.drop_last());
        assert((a + b).drop_last() =~= a + b.drop_last());
    }
}

proof fn lemma_sum_sizes_single(recs: Seq<Record>, p: (u64, usize))
    ensures
        sum_sizes(recs, seq![p]) == size_at(recs, p),
{
    assert(seq![p].drop_last() =~= Seq::<(u64, usize)>::empty());
    assert(sum_sizes(recs, Seq::<(u64, usize)>::empty()) == 0);
    assert(seq![p].last() == p);
}

proof fn lemma_sum_sizes_remove(recs: Seq<Record>, s: Seq<(u64, usize)>, i: int)
    requires
        0 <= i < s.len(),
    ensures
        sum_sizes(recs, s) == sum_sizes(recs, s.remove(i)) + size_at(recs, s[i]),
{
    let pre = s.subrange(0, i);
    let post = s.subrange(i + 1, s.len() as int);
    let single = seq![s[i]];
    assert(s =~= pre + (single + post));
    assert(s.remove(i) =~= pre + post);
    lemma_sum_sizes_concat(recs, pre, single + post);
    lemma_sum_sizes_concat(recs, single, post);
    lemma_sum_sizes_concat(recs, pre, post);
    lemma_sum_sizes_single(recs, s[i]);
}

/// Sizes add up the same in any order.
proof fn lemma_sum_sizes_permutation(recs: Seq<Record>, s: Seq<(u64, usize)>, t: Seq<(u64, usize)>)
    requires
        s.to_multiset() == t.to_multiset(),
    ensures
        sum_sizes(recs, s) == sum_sizes(recs, t),
    decreases s.len(),
{
    broadcast use group_to_multiset_ensures, group_multiset_axioms;

    assert(s.to_multiset().len() == s.len());
    assert(t.to_multiset().len() == t.len());
    if s.len() == 0 {
        assert(t.len() == 0);
    } else {
        let x = s.last();
        let rest = s.drop_last();
        assert(s =~= rest.push(x));
        assert(s.to_multiset().count(x) > 0);
        assert(t.contains(x));
        let i = choose|i: int| 0 <= i < t.len() && t[i] == x;
        assert(rest.to_multiset() =~= s.to_multiset().remove(x));
        assert(t.remove(i).to_multiset() =~= t.to_multiset().remove(x));
        lemma_sum_sizes_permutation(recs, rest, t.remove(i));
        lemma_sum_sizes_remove(recs, t, i);
    }
}

/// Sizes taken from a longer list of records agree on positions the
/// shorter one has.
proof fn lemma_sum_sizes_extend(recs: Seq<Record>, longer: Seq<Record>, s: Seq<(u64, usize)>)
    requires
        recs.len() <= longer.len(),
        recs =~= longer.subrange(0, recs.len() as int),
        forall|m: int| 0 <= m < s.len() ==> (#[trigger] s[m]).1 < recs.len(),
    ensures
        sum_sizes(recs, s) == sum_sizes(longer, s),
    decreases s.len(),
{
    if s.len() > 0 {
        lemma_sum_sizes_extend(recs, longer, s.drop_last());
        assert(s.last() == s[s.len() - 1]);
    }
}

/// The total size is the sum over the records in read order.
proof fn lemma_total_in_read_order(recs: Seq<Record>)
    requires
        recs.len() <= usize::MAX,
    ensures
        total_size(recs) == sum_sizes(recs, read_order(recs)),
    decreases recs.len(),
{
    if recs.len() > 0 {
        let shorter = recs.drop_last();
        lemma_total_in_read_order(shorter);
        assert(read_order(recs).drop_last() =~= read_order(shorter));
        lemma_sum_sizes_extend(shorter, recs, read_order(shorter));
    }
}

/// The eviction order lists every record exactly once, each with its own
/// timestamp, oldest first.
pub proof fn lemma_eviction_order_facts(recs: Seq<Record>)
    requires
        recs.len() <= usize::MAX,
    ensures
        eviction_order(recs).len() == recs.len(),
        eviction_order(recs).to_multiset() == read_order(recs).to_multiset(),
        sorted_by_age(eviction_order(recs)),
        forall|m: int|
            0 <= m < recs.len() ==> {
                &&& (#[trigger] eviction_order(recs)[m]).1 < recs.len()
                &&& eviction_order(recs)[m].0 == recs[eviction_order(recs)[m].1 as int].0
            },
        forall|i: int| 0 <= i < recs.len() ==> #[trigger] listed(recs, i),
        forall|a: int, b: int|
            0 <= a < b < recs.len() ==> #[trigger] eviction_order(recs)[a].1 != #[trigger] eviction_order(
                recs,
            )[b].1,
{
    broadcast use group_to_multiset_ensures, group_multiset_axioms;

    let order = eviction_order(recs);
    let reads = read_order(recs);
    lemma_age_order_total();
    reads.lemma_sort_by_ensures(age_order());
    lemma_sorted_by_age_is_sorted_by(order);
    assert(order.to_multiset().len() == order.len());
    assert(reads.to_multiset().len() == reads.len());
    assert(order.len() == reads.len());
    assert forall|m: int| 0 <= m < recs.len() implies {
        &&& (#[trigger] order[m]).1 < recs.len()
        &&& order[m].0 == recs[order[m].1 as int].0
    } by {
        assert(order.to_multiset().count(order[m]) > 0);
        assert(reads.contains(order[m]));
        let i = choose|i: int| 0 <= i < reads.len() && reads[i] == order[m];
        assert(reads[i] == (recs[i].0, i as usize));
    }
    assert forall|i: int| 0 <= i < recs.len() implies #[trigger] listed(recs, i) by {
        assert(reads[i] == (recs[i].0, i as usize));
        assert(reads.to_multiset().count(reads[i]) > 0);
        assert(order.contains(reads[i]));
        let m = choose|m: int| 0 <= m < order.len() && order[m] == reads[i];
        assert(order[m].1 == i);
    }
    assert forall|a: int, b: int| 0 <= a < b < recs.len() implies #[trigger] order[a].1
        != #[trigger] order[b].1 by {
        if order[a].1 == order[b].1 {
            // both carry the record's own timestamp, so they are the same pair
            assert(order[a] == order[b]);
            assert(reads.no_duplicates()) by {
                assert forall|p: int, q: int| 0 <= p < reads.len() && 0 <= q < reads.len() && p
                    != q implies reads[p] != reads[q] by {
                    assert(reads[p].1 == p as usize);
                    assert(reads[q].1 == q as usize);
                }
            }
            reads.lemma_multiset_has_no_duplicates();
            assert(order.to_multiset().count(order[a]) == 1);
            let ms = order.to_multiset();
            let without_a = order.remove(a);
            assert(without_a.to_multiset() =~= ms.remove(order[a]));
            assert(without_a[b - 1] == order[b]);
            assert(without_a.to_multiset().count(order[b]) > 0);
        }
    }
}

/// Eviction takes the oldest records: every record evicted among the
/// first `k` is no younger than every record kept.
pub proof fn lemma_evicts_oldest_first(recs: Seq<Record>, k: int, a: int, b: int)
    requires
        recs.len() <= usize::MAX,
        0 <= a < k <= b < recs.len(),
    ensures
        recs[eviction_order(recs)[a].1 as int].0 <= recs[eviction_order(recs)[b].1 as int].0,
{
    lemma_eviction_order_facts(recs);
    assert(older_or_same(eviction_order(recs)[a], eviction_order(recs)[b]));
}

/// What stays stored and what is evicted add up to everything stored.
pub proof fn lemma_kept_plus_evicted(recs: Seq<Record>, k: int)
    requires
        recs.len() <= usize::MAX,
        0 <= k <= recs.len(),
    ensures
        kept_size(recs, k) + sum_sizes(recs, eviction_order(recs).subrange(0, k)) == total_size(
            recs,
        ),
{
    let order = eviction_order(recs);
    lemma_eviction_order_facts(recs);
    assert(order =~= order.subrange(0, k) + order.subrange(k, recs.len() as int));
    lemma_sum_sizes_concat(recs, order.subrange(0, k), order.subrange(k, recs.len() as int));
    lemma_total_in_read_order(recs);
    lemma_sum_sizes_permutation(recs, order, read_order(recs));
}

#[derive(Clone, Copy)]
struct EvictionRecord {
    inserted_at: u64,
    key: [u8; 32],
    size: u64,
}

/// The records of the stored entries gathered while they are read, with
/// their running total size.
pub struct EvictionPlan {
    records: Vec<EvictionRecord>,
    total: u64,
}

impl EvictionPlan {
    /// The records gathered so far, in the order they were read.
    pub closed spec fn records(self) -> Seq<Record> {
        self.records@.map_values(|r: EvictionRecord| (r.inserted_at, r.key, r.size))
    }

    /// The running total is the total size of the records.
    pub closed spec fn wf(self) -> bool {
        self.total as int == total_size(self.records())
    }

    /// A plan with nothing gathered.
    pub fn new() -> (plan: EvictionPlan)
        ensures
            plan.wf(),
            plan.records() == Seq::<Record>::empty(),
    {
        let plan = EvictionPlan { records: Vec::new(), total: 0 };
        assert(plan.records() =~= Seq::<Record>::empty());
        plan
    }

    /// The total size of the records gathered so far.
    pub fn total(&self) -> (t: u64)
        requires
            self.wf(),
        ensures
            t == total_size(self.records()),
    {
        self.total
    }

    /// Gather one stored entry. A value too short to hold a timestamp is
    /// passed over: it is neither counted nor ever evicted.
    pub fn observe(&mut self, key: [u8; 32], value: &[u8])
        requires
            old(self).wf(),
            value@.len() >= 8 ==> total_size(old(self).records()) + value@.len() <= u64::MAX,
        ensures
            final(self).wf(),
            final(self).records() == if value@.len() >= 8 {
                old(self).records().push((entry_timestamp(value@), key, value@.len() as u64))
            } else {
                old(self).records()
            },
    {
        if value.len() < 8 {
            return;
        }
        let inserted_at = u64_from_le_bytes(slice_subrange(value, 0, 8));
        let size = value.len() as u64;
        let ghost before = self.records();
        self.records.push(EvictionRecord { inserted_at, key, size });
        self.total = self.total + size;
        proof {
            assert(self.records() =~= before.push((inserted_at, key, size)));
            assert(self.records().drop_last() =~= before);
        }
    }

    /// The keys to remove so that the stored value bytes fit `target`: the
    /// shortest run of records in eviction order whose removal leaves at
    /// most `target` bytes. Nothing is removed when everything already fits.
    pub fn victims(&self, target: u64) -> (v: Vec<[u8; 32]>)
        requires
            self.wf(),
        ensures
            v@.len() <= self.records().len(),
            v@ == evicted_keys(self.records(), v@.len()),
            kept_size(self.records(), v@.len() as int) <= target,
            forall|j: int| 0 <= j < v@.len() ==> kept_size(self.records(), j) > target,
            total_size(self.records()) <= target ==> v@.len() == 0,
    {
        let ghost recs = self.records();
        let n = self.records.len();
        let mut pairs: Vec<(u64, usize)> = Vec::new();
        let mut i: usize = 0;
        while i < n
            invariant
                n == recs.len(),
                recs == self.records(),
                i <= n,
                pairs@ == read_order(recs).subrange(0, i as int),
            decreases n - i,
        {
            pairs.push((self.records[i].inserted_at, i));
            i = i + 1;
            proof {
                assert(pairs@ =~= read_order(recs).subrange(0, i as int));
            }
        }
        proof {
            assert(pairs@ =~= read_order(recs));
        }
        let sorted = sort_by_age(pairs);
        proof {
            lemma_sorted_is_sort(read_order(recs), sorted@);
            lemma_eviction_order_facts(recs);
            lemma_kept_plus_evicted(recs, 0);
            assert(eviction_order(recs).subrange(0, 0) =~= Seq::<(u64, usize)>::empty());
        }
        let mut total: u64 = self.total;
        let mut out: Vec<[u8; 32]> = Vec::new();
        let mut m: usize = 0;
        while m < n && total > target
            invariant
                n == recs.len(),
                recs.len() <= usize::MAX,
                recs == self.records(),
                sorted@ == eviction_order(recs),
                eviction_order(recs).len() == recs.len(),
                m <= n,
                total == kept_size(recs, m as int),
                out@ == evicted_keys(recs, m as nat),
                forall|j: int| 0 <= j < m ==> kept_size(recs, j) > target,
                forall|q: int|
                    0 <= q < recs.len() ==> (#[trigger] eviction_order(recs)[q]).1 < recs.len(),
            decreases n - m,
        {
            let idx = sorted[m].1;
            let rec = self.records[idx];
            out.push(rec.key);
            proof {
                let order = eviction_order(recs);
                let rest = order.subrange(m + 1, n as int);
                assert(order.subrange(m as int, n as int) =~= seq![order[m as int]] + rest);
                lemma_sum_sizes_concat(recs, seq![order[m as int]], rest);
                lemma_sum_sizes_single(recs, order[m as int]);
                lemma_sum_sizes_nonneg(recs, rest);
                assert(size_at(recs, order[m as int]) == rec.size);
                assert(out@ =~= evicted_keys(recs, (m + 1) as nat));
            }
            total = total - rec.size;
            m = m + 1;
        }
        proof {
            if m == n {
                assert(eviction_order(recs).subrange(n as int, n as int) =~= Seq::<(u64, usize)>::empty());
            }
            if total_size(recs) <= target && m > 0 {
                assert(kept_size(recs, 0) > target);
            }
        }
        out
    }
}

} // verus!
