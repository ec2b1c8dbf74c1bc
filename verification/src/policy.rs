//! The expiry rule: which stored entries a lookup still returns, and which
//! a sweep removes.

use vstd::prelude::*;
use vstd::bytes::{spec_u64_from_le_bytes, u64_from_le_bytes};
use vstd::slice::slice_subrange;

use crate::entry::{decode_entry, entry_bytes, entry_components, entry_timestamp, is_well_formed, lemma_encode_then_decode, malformed_text};
use crate::error::CacheError;

verus! {

/// Seconds elapsed from `inserted_at` to `now`, zero for a timestamp in the
/// future.
pub open spec fn elapsed(inserted_at: u64, now: u64) -> int {
    if now >= inserted_at {
        now - inserted_at
    } else {
        0
    }
}

/// An entry stamped `inserted_at` is dead at `now` once `ttl` seconds have
/// elapsed; without a TTL nothing expires.
pub open spec fn is_expired(ttl: Option<u64>, inserted_at: u64, now: u64) -> bool {
    match ttl {
        Some(t) => elapsed(inserted_at, now) >= t,
        None => false,
    }
}

/// A lookup of a stored value answers "absent" although the value is there:
/// the value is a well-formed entry that has expired.
pub open spec fn lookup_hides(ttl: Option<u64>, stored: Seq<u8>, now: u64) -> bool {
    is_well_formed(stored) && is_expired(ttl, entry_timestamp(stored), now)
}

/// A sweep with time-to-live `ttl` at `now` removes a stored value when it
/// holds at least a timestamp and `inserted_at + ttl < now`.
pub open spec fn sweep_removes(ttl: u64, now: u64, stored: Seq<u8>) -> bool {
    stored.len() >= 8 && entry_timestamp(stored) + ttl < now
}

/// The text of the error for a time-to-live of zero.
pub open spec fn zero_ttl_text() -> Seq<char> {
    "ttl_secs must be > 0 (or None for no expiry)"@
}

/// The configuration of a cache: its optional time-to-live in seconds,
/// never zero.
pub struct CacheConfig {
    ttl_secs: Option<u64>,
}

impl CacheConfig {
    /// The time-to-live, `None` for no expiry.
    pub closed spec fn ttl(self) -> Option<u64> {
        self.ttl_secs
    }

    #[verifier::type_invariant]
    closed spec fn ttl_is_positive(self) -> bool {
        self.ttl_secs != Some(0u64)
    }

    /// Accept a time-to-live. Zero is refused with `InvalidConfig`;
    /// `None` means entries never expire.
    pub fn new(ttl_secs: Option<u64>) -> (r: Result<CacheConfig, CacheError>)
        ensures
            ttl_secs == Some(0u64) <==> r is Err,
            match r {
                Ok(c) => c.ttl() == ttl_secs,
                Err(CacheError::InvalidConfig(m)) => m@ == zero_ttl_text(),
                Err(_) => false,
            },
    {
        if let Some(ttl) = ttl_secs {
            if ttl == 0 {
                return Err(
                    CacheError::InvalidConfig(
                        String::from_str("ttl_secs must be > 0 (or None for no expiry)"),
                    ),
                );
            }
        }
        Ok(CacheConfig { ttl_secs })
    }

    /// The time-to-live in seconds, if any; never zero.
    pub fn ttl_secs(&self) -> (r: Option<u64>)
        ensures
            r == self.ttl(),
            r != Some(0u64),
    {
        proof {
            use_type_invariant(self);
        }
        self.ttl_secs
    }

    /// Whether an entry stamped `inserted_at` has expired at `now`.
    pub fn is_expired(&self, inserted_at: u64, now: u64) -> (r: bool)
        ensures
            r == is_expired(self.ttl(), inserted_at, now),
    {
        match self.ttl_secs {
            Some(ttl) => now.saturating_sub(inserted_at) >= ttl,
            None => false,
        }
    }

    /// What a lookup returns for the value stored under a key (`None` when
    /// the key is absent), read at `now`: the vector's bit patterns, `None`
    /// when absent or expired, or `Malformed` when the value is not a
    /// well-formed entry. A malformed value is reported whether or not it
    /// would have expired.
    pub fn lookup(&self, stored: Option<&[u8]>, now: u64) -> (r: Result<Option<Vec<u32>>, CacheError>)
        ensures
            match stored {
                None => r matches Ok(None),
                Some(b) => if !is_well_formed(b@) {
                    r matches Err(CacheError::Malformed(m)) && m@ == malformed_text(b@)
                } else if lookup_hides(self.ttl(), b@, now) {
                    r matches Ok(None)
                } else {
                    r matches Ok(Some(v)) && v@ == entry_components(b@)
                },
            },
    {
        let bytes = match stored {
            Some(b) => b,
            None => return Ok(None),
        };
        let (inserted_at, vec) = match decode_entry(bytes) {
            Ok(decoded) => decoded,
            Err(e) => return Err(e),
        };
        if self.is_expired(inserted_at, now) {
            return Ok(None);
        }
        Ok(Some(vec))
    }
}

/// The keys that a purge of expired entries removes, gathered while the
/// stored entries are read one at a time.
pub struct ExpirySweep {
    ttl: u64,
    now: u64,
    victims: Vec<[u8; 32]>,
}

impl ExpirySweep {
    /// The time-to-live the sweep applies.
    pub closed spec fn ttl(self) -> u64 {
        self.ttl
    }

    /// The time the sweep measures against.
    pub closed spec fn now(self) -> u64 {
        self.now
    }

    /// The keys chosen so far, in the order their entries were observed.
    pub closed spec fn victims(self) -> Seq<[u8; 32]> {
        self.victims@
    }

    /// Start a sweep at `now`. A cache without a time-to-live has nothing
    /// to sweep, and gets `None`.
    pub fn new(config: &CacheConfig, now: u64) -> (r: Option<ExpirySweep>)
        ensures
            match config.ttl() {
                None => r is None,
                Some(t) => r matches Some(s) && s.ttl() == t && s.ttl() > 0 && s.now() == now
                    && s.victims() == Seq::<[u8; 32]>::empty(),
            },
    {
        match config.ttl_secs() {
            None => None,
            Some(ttl) => Some(ExpirySweep { ttl, now, victims: Vec::new() }),
        }
    }

    /// Look at one stored entry: its key is chosen when the entry holds a
    /// timestamp with `inserted_at + ttl < now`. Values too short to hold a timestamp are
    /// passed over.
    pub fn observe(&mut self, key: [u8; 32], value: &[u8])
        ensures
            final(self).ttl() == old(self).ttl(),
            final(self).now() == old(self).now(),
            final(self).victims() == if sweep_removes(old(self).ttl(), old(self).now(), value@) {
                old(self).victims().push(key)
            } else {
                old(self).victims()
            },
    {
        if value.len() < 8 {
            return;
        }
        let inserted = u64_from_le_bytes(slice_subrange(value, 0, 8));
        let due = match inserted.checked_add(self.ttl) {
            Some(deadline) => deadline < self.now,
            None => false,
        };
        if due {
            self.victims.push(key);
        }
    }

    /// The keys to remove, in the order their entries were observed.
    pub fn into_victims(self) -> (v: Vec<[u8; 32]>)
        ensures
            v@ == self.victims(),
    {
        self.victims
    }
}

/// The keys that a sweep with time-to-live `ttl` at `now` chooses from the
/// stored `(key, value)` pairs, in the order they are observed.
pub open spec fn sweep_keys(ttl: u64, now: u64, entries: Seq<([u8; 32], Seq<u8>)>) -> Seq<[u8; 32]>
    decreases entries.len(),
{
    if entries.len() == 0 {
        Seq::empty()
    } else {
        let chosen = sweep_keys(ttl, now, entries.drop_last());
        if sweep_removes(ttl, now, entries.last().1) {
            chosen.push(entries.last().0)
        } else {
            chosen
        }
    }
}

/// The stored pairs that such a sweep leaves in place, in order.
pub open spec fn sweep_kept(ttl: u64, now: u64, entries: Seq<([u8; 32], Seq<u8>)>) -> Seq<
    ([u8; 32], Seq<u8>),
>
    decreases entries.len(),
{
    if entries.len() == 0 {
        Seq::empty()
    } else {
        let kept = sweep_kept(ttl, now, entries.drop_last());
        if sweep_removes(ttl, now, entries.last().1) {
            kept
        } else {
            kept.push(entries.last())
        }
    }
}

/// Observing one more pair extends what a sweep chooses exactly as
/// `ExpirySweep::observe` does: a sweep that has observed `entries` in
/// order holds `sweep_keys` of them.
pub proof fn lemma_sweep_keys_step(
    ttl: u64,
    now: u64,
    entries: Seq<([u8; 32], Seq<u8>)>,
    entry: ([u8; 32], Seq<u8>),
)
    ensures
        sweep_keys(ttl, now, entries.push(entry)) == if sweep_removes(ttl, now, entry.1) {
            sweep_keys(ttl, now, entries).push(entry.0)
        } else {
            sweep_keys(ttl, now, entries)
        },
        sweep_kept(ttl, now, entries.push(entry)) == if sweep_removes(ttl, now, entry.1) {
            sweep_kept(ttl, now, entries)
        } else {
            sweep_kept(ttl, now, entries).push(entry)
        },
{
    assert(entries.push(entry).drop_last() =~= entries);
    assert(entries.push(entry).last() == entry);
}

/// Purging expired entries is idempotent: a second sweep at the same time,
/// over what the first one left in place, chooses nothing.
pub proof fn lemma_sweep_idempotent(ttl: u64, now: u64, entries: Seq<([u8; 32], Seq<u8>)>)
    ensures
        sweep_keys(ttl, now, sweep_kept(ttl, now, entries)) == Seq::<[u8; 32]>::empty(),
    decreases entries.len(),
{
    if entries.len() > 0 {
        let rest = entries.drop_last();
        lemma_sweep_idempotent(ttl, now, rest);
        if !sweep_removes(ttl, now, entries.last().1) {
            lemma_sweep_keys_step(ttl, now, sweep_kept(ttl, now, rest), entries.last());
        }
    }
}

/// A sweep removes what a lookup hid one second earlier: for a well-formed
/// entry under a (positive) time-to-live, a sweep at `now` removes it
/// exactly when a lookup at `now - 1` answers that it is absent. A sweep at
/// time 0 removes nothing.
pub proof fn lemma_sweep_removes_what_lookup_hides(ttl: u64, now: u64, stored: Seq<u8>)
    requires
        ttl > 0,
        is_well_formed(stored),
    ensures
        now > 0 ==> sweep_removes(ttl, now, stored) == lookup_hides(
            Some(ttl),
            stored,
            (now - 1) as u64,
        ),
        now == 0 ==> !sweep_removes(ttl, now, stored),
{
}

/// A read gives back what a write stored: the entry written for a vector
/// at `inserted_at` is looked up, at any `now` before it expires, as that
/// same vector; once expired it is looked up as absent. Without a
/// time-to-live it is always given back.
pub proof fn lemma_written_entry_reads_back(
    ttl: Option<u64>,
    inserted_at: u64,
    bits: Seq<u32>,
    now: u64,
)
    requires
        bits.len() <= u32::MAX,
    ensures
        is_well_formed(entry_bytes(inserted_at, bits)),
        entry_components(entry_bytes(inserted_at, bits)) == bits,
        lookup_hides(ttl, entry_bytes(inserted_at, bits), now) == is_expired(ttl, inserted_at, now),
        ttl is None ==> !lookup_hides(ttl, entry_bytes(inserted_at, bits), now),
{
    lemma_encode_then_decode(inserted_at, bits);
}

/// A time-to-live of `ttl` seconds means an entry is alive for the first
/// `ttl - 1` seconds after its insertion and dead from `ttl` seconds on.
pub proof fn lemma_ttl_boundary(ttl: u64, inserted_at: u64, now: u64)
    requires
        now >= inserted_at,
    ensures
        is_expired(Some(ttl), inserted_at, now) <==> now - inserted_at >= ttl,
{
}

/// The expiry rules in plain arithmetic: under a positive time-to-live an
/// entry stamped `inserted_at` is hidden from `inserted_at + ttl` on, and a
/// sweep at `now` removes a value holding a timestamp once
/// `inserted_at + ttl < now`, the timestamp being its first 8 bytes read
/// little-endian.
pub proof fn lemma_expiry_arithmetic(ttl: u64, inserted_at: u64, now: u64, stored: Seq<u8>)
    requires
        ttl > 0,
    ensures
        is_expired(Some(ttl), inserted_at, now) <==> inserted_at + ttl <= now,
        sweep_removes(ttl, now, stored) <==> (stored.len() >= 8 && spec_u64_from_le_bytes(
            stored.subrange(0, 8),
        ) + ttl < now),
{
}

/// Without a time-to-live no entry ever expires.
pub proof fn lemma_no_ttl_never_expires(inserted_at: u64, now: u64)
    ensures
        !is_expired(None, inserted_at, now),
{
}

} // verus!
