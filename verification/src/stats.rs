//! Counts and bytes of a cache.

use vstd::prelude::*;

verus! {

/// Cache stats.
#[derive(Debug, Clone, Copy, PartialEq, Eq, Structural)]
pub struct CacheStats {
    /// Number of entries currently stored.
    pub entries: u64,
    /// Total raw value bytes (excluding store overhead).
    pub value_bytes: u64,
    /// File size of the database on disk in bytes.
    pub disk_bytes: u64,
}

/// The sum of the value lengths.
pub open spec fn sum_lens(lens: Seq<usize>) -> int
    decreases lens.len(),
{
    if lens.len() == 0 {
        0
    } else {
        sum_lens(lens.drop_last()) + lens.last()
    }
}

/// The value bytes are the plain sum of the value lengths: nothing for no
/// values, and each further value adds its whole length.
pub proof fn lemma_sum_lens_adds_lengths(lens: Seq<usize>, len: usize)
    ensures
        sum_lens(Seq::<usize>::empty()) == 0,
        sum_lens(lens.push(len)) == sum_lens(lens) + len,
        sum_lens(seq![len]) == len,
{
    assert(lens.push(len).drop_last() =~= lens);
    assert(seq![len].drop_last() =~= Seq::<usize>::empty());
}

proof fn lemma_sum_lens_prefix(lens: Seq<usize>, i: int)
    requires
        0 <= i <= lens.len(),
    ensures
        sum_lens(lens.subrange(0, i)) <= sum_lens(lens),
    decreases lens.len() - i,
{
    if i < lens.len() {
        lemma_sum_lens_prefix(lens, i + 1);
        assert(lens.subrange(0, i + 1).drop_last() =~= lens.subrange(0, i));
    } else {
        assert(lens.subrange(0, i) =~= lens);
    }
}

impl CacheStats {
    /// The stats of a store holding `entries` entries whose values have the
    /// given lengths, in a file of `disk_bytes` bytes.
    pub fn tally(entries: u64, value_lens: &[usize], disk_bytes: u64) -> (s: CacheStats)
        requires
            sum_lens(value_lens@) <= u64::MAX,
        ensures
            s.entries == entries,
            s.value_bytes == sum_lens(value_lens@),
            s.disk_bytes == disk_bytes,
    {
        let mut value_bytes: u64 = 0;
        let mut i: usize = 0;
        while i < value_lens.len()
            invariant
                i <= value_lens@.len(),
                sum_lens(value_lens@) <= u64::MAX,
                value_bytes == sum_lens(value_lens@.subrange(0, i as int)),
            decreases value_lens@.len() - i,
        {
            proof {
                lemma_sum_lens_prefix(value_lens@, i + 1);
                assert(value_lens@.subrange(0, i + 1).drop_last() =~= value_lens@.subrange(0, i as int));
            }
            value_bytes = value_bytes + value_lens[i] as u64;
            i = i + 1;
        }
        proof {
            assert(value_lens@.subrange(0, i as int) =~= value_lens@);
        }
        CacheStats { entries, value_bytes, disk_bytes }
    }
}

} // verus!
