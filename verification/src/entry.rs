//! The on-disk layout of one cache entry.

use vstd::prelude::*;
use vstd::bytes::*;
use vstd::slice::slice_subrange;

use crate::error::CacheError;

verus! {

/// Bytes taken by the header: the 8-byte timestamp and the 4-byte dimension.
pub const HEADER_LEN: usize = 12;

/// The little-endian bytes of the components, four per component, in order.
pub open spec fn components_bytes(bits: Seq<u32>) -> Seq<u8> {
    Seq::new(4 * bits.len(), |i: int| spec_u32_to_le_bytes(bits[i / 4])[i % 4])
}

/// The bytes that `encode_entry` writes for a vector with the given
/// component bit patterns, stamped `inserted_at`. The dimension field is the
/// number of components truncated to 32 bits.
pub open spec fn entry_bytes(inserted_at: u64, bits: Seq<u32>) -> Seq<u8> {
    spec_u64_to_le_bytes(inserted_at) + spec_u32_to_le_bytes(bits.len() as u32)
        + components_bytes(bits)
}

/// Serialise an entry: timestamp, dimension, then each component.
pub fn encode_entry(inserted_at: u64, bits: &[u32]) -> (out: Vec<u8>)
    ensures
        out@ == entry_bytes(inserted_at, bits@),
{
    let dim: u32 = bits.len() as u32;
    let mut out: Vec<u8> = Vec::new();
    let mut head = u64_to_le_bytes(inserted_at);
    out.append(&mut head);
    let mut dim_bytes = u32_to_le_bytes(dim);
    out.append(&mut dim_bytes);
    let ghost prefix = spec_u64_to_le_bytes(inserted_at) + spec_u32_to_le_bytes(dim);
    let mut i: usize = 0;
    while i < bits.len()
        invariant
            i <= bits@.len(),
            prefix.len() == HEADER_LEN,
            out@ == prefix + components_bytes(bits@.subrange(0, i as int)),
        decreases bits@.len() - i,
    {
        let w = bits[i];
        let mut word = u32_to_le_bytes(w);
        proof {
            lemma_auto_spec_u32_to_from_le_bytes();
        }
        let ghost before = components_bytes(bits@.subrange(0, i as int));
        out.append(&mut word);
        proof {
            let after = components_bytes(bits@.subrange(0, i + 1));
            assert forall|k: int| 0 <= k < after.len() implies after[k] == (before
                + spec_u32_to_le_bytes(w))[k] by {
                if k < 4 * i {
                    assert(k / 4 < i) by (nonlinear_arith)
                        requires
                            0 <= k < 4 * i,
                    ;
                } else {
                    assert(k / 4 == i && k % 4 == k - 4 * i) by (nonlinear_arith)
                        requires
                            4 * i <= k < 4 * i + 4,
                    ;
                }
            }
            assert(after =~= before + spec_u32_to_le_bytes(w));
        }
        i = i + 1;
    }
    proof {
        lemma_auto_spec_u64_to_from_le_bytes();
        lemma_auto_spec_u32_to_from_le_bytes();
        assert(bits@.subrange(0, bits@.len() as int) =~= bits@);
    }
    out
}


/// The timestamp field of a stored entry.
pub open spec fn entry_timestamp(bytes: Seq<u8>) -> u64 {
    spec_u64_from_le_bytes(bytes.subrange(0, 8))
}

/// The dimension field of a stored entry.
pub open spec fn entry_dim(bytes: Seq<u8>) -> u32 {
    spec_u32_from_le_bytes(bytes.subrange(8, 12))
}

/// The length that an entry's dimension field calls for.
pub open spec fn expected_len(bytes: Seq<u8>) -> int {
    HEADER_LEN + 4 * entry_dim(bytes)
}

/// An entry is well formed when it holds a whole header and exactly as many
/// component bytes as its dimension field announces.
pub open spec fn is_well_formed(bytes: Seq<u8>) -> bool {
    bytes.len() >= HEADER_LEN && bytes.len() == expected_len(bytes)
}

/// The component bit patterns that a well-formed entry holds.
pub open spec fn entry_components(bytes: Seq<u8>) -> Seq<u32> {
    Seq::new(
        entry_dim(bytes) as nat,
        |j: int| spec_u32_from_le_bytes(bytes.subrange(HEADER_LEN + 4 * j, HEADER_LEN + 4 * j + 4)),
    )
}

/// The character of a decimal digit.
pub open spec fn digit_char(d: nat) -> char {
    (48 + d) as char
}

/// The decimal representation of `n`, most significant digit first.
pub open spec fn decimal(n: nat) -> Seq<char>
    decreases n,
{
    if n < 10 {
        seq![digit_char(n)]
    } else {
        decimal(n / 10).push(digit_char(n % 10))
    }
}

/// The message of a length mismatch between an entry and its header.
pub open spec fn length_mismatch_text(actual: nat, expected: nat) -> Seq<char> {
    "entry length "@ + decimal(actual) + ", expected "@ + decimal(expected)
}

/// The message that `decode_entry` reports for a malformed entry.
pub open spec fn malformed_text(bytes: Seq<u8>) -> Seq<char> {
    if bytes.len() < HEADER_LEN {
        "entry shorter than header"@
    } else {
        length_mismatch_text(bytes.len(), expected_len(bytes) as nat)
    }
}

/// The one-character string of a decimal digit.
fn digit_str(d: u64) -> (s: &'static str)
    requires
        d < 10,
    ensures
        s@ == seq![digit_char(d as nat)],
{
    proof {
        reveal_strlit("0");
        reveal_strlit("1");
        reveal_strlit("2");
        reveal_strlit("3");
        reveal_strlit("4");
        reveal_strlit("5");
        reveal_strlit("6");
        reveal_strlit("7");
        reveal_strlit("8");
        reveal_strlit("9");
    }
    match d {
        0 => "0",
        1 => "1",
        2 => "2",
        3 => "3",
        4 => "4",
        5 => "5",
        6 => "6",
        7 => "7",
        8 => "8",
        _ => "9",
    }
}

/// Append the decimal representation of `n`.
fn append_decimal(s: &mut String, n: u64)
    ensures
        final(s)@ == old(s)@ + decimal(n as nat),
    decreases n,
{
    if n >= 10 {
        append_decimal(s, n / 10);
    }
    s.append(digit_str(n % 10));
    assert(s@ =~= old(s)@ + decimal(n as nat));
}

/// The message of a length mismatch between an entry and its header.
fn length_mismatch_message(actual: u64, expected: u64) -> (m: String)
    ensures
        m@ == length_mismatch_text(actual as nat, expected as nat),
{
    let mut m = String::from_str("entry length ");
    append_decimal(&mut m, actual);
    m.append(", expected ");
    append_decimal(&mut m, expected);
    m
}

/// Parse a stored entry into its timestamp and component bit patterns.
/// Fails with `Malformed` when the entry is shorter than its header or its
/// length disagrees with its dimension field.
pub fn decode_entry(bytes: &[u8]) -> (r: Result<(u64, Vec<u32>), CacheError>)
    ensures
        match r {
            Ok((t, v)) => {
                &&& is_well_formed(bytes@)
                &&& t == entry_timestamp(bytes@)
                &&& v@ == entry_components(bytes@)
            },
            Err(CacheError::Malformed(m)) => !is_well_formed(bytes@) && m@ == malformed_text(bytes@),
            Err(_) => false,
        },
{
    if bytes.len() < HEADER_LEN {
        return Err(CacheError::Malformed(String::from_str("entry shorter than header")));
    }
    let inserted = u64_from_le_bytes(slice_subrange(bytes, 0, 8));
    let dim = u32_from_le_bytes(slice_subrange(bytes, 8, 12));
    let expected: u64 = 12 + (dim as u64) * 4;
    if bytes.len() as u64 != expected {
        return Err(CacheError::Malformed(length_mismatch_message(bytes.len() as u64, expected)));
    }
    let n: usize = dim as usize;
    let len: usize = bytes.len();
    let mut vec: Vec<u32> = Vec::with_capacity(n);
    let mut i: usize = 0;
    while i < n
        invariant
            n == entry_dim(bytes@),
            bytes@.len() == HEADER_LEN + 4 * n,
            len == bytes@.len(),
            i <= n,
            vec@ == entry_components(bytes@).subrange(0, i as int),
        decreases n - i,
    {
        let off: usize = HEADER_LEN + i * 4;
        let w = u32_from_le_bytes(slice_subrange(bytes, off, off + 4));
        vec.push(w);
        i = i + 1;
        proof {
            assert(vec@ =~= entry_components(bytes@).subrange(0, i as int));
        }
    }
    proof {
        assert(vec@ =~= entry_components(bytes@));
    }
    Ok((inserted, vec))
}


/// Decoding gives back what encoding wrote: for a vector of at most
/// `u32::MAX` components, the encoded entry is well formed and decodes to
/// the same timestamp and components.
pub proof fn lemma_encode_then_decode(inserted_at: u64, bits: Seq<u32>)
    requires
        bits.len() <= u32::MAX,
    ensures
        is_well_formed(entry_bytes(inserted_at, bits)),
        entry_timestamp(entry_bytes(inserted_at, bits)) == inserted_at,
        entry_components(entry_bytes(inserted_at, bits)) == bits,
{
    lemma_auto_spec_u64_to_from_le_bytes();
    lemma_auto_spec_u32_to_from_le_bytes();
    let b = entry_bytes(inserted_at, bits);
    let c = components_bytes(bits);
    assert(b.subrange(0, 8) =~= spec_u64_to_le_bytes(inserted_at));
    assert(b.subrange(8, 12) =~= spec_u32_to_le_bytes(bits.len() as u32));
    assert(entry_dim(b) == bits.len());
    assert forall|j: int| 0 <= j < bits.len() implies #[trigger] entry_components(b)[j]
        == bits[j] by {
        assert(b.subrange(HEADER_LEN + 4 * j, HEADER_LEN + 4 * j + 4) =~= spec_u32_to_le_bytes(
            bits[j],
        )) by {
            assert forall|r: int| 0 <= r < 4 implies #[trigger] b[HEADER_LEN + 4 * j + r]
                == spec_u32_to_le_bytes(bits[j])[r] by {
                assert((4 * j + r) / 4 == j && (4 * j + r) % 4 == r) by (nonlinear_arith)
                    requires
                        0 <= r < 4,
                ;
                assert(b[HEADER_LEN + 4 * j + r] == c[4 * j + r]);
            }
        }
    }
    assert(entry_components(b) =~= bits);
}

/// Encoding is canonical: a well-formed entry is exactly the encoding of the
/// timestamp and components that it decodes to.
pub proof fn lemma_decode_then_encode(bytes: Seq<u8>)
    requires
        is_well_formed(bytes),
    ensures
        entry_bytes(entry_timestamp(bytes), entry_components(bytes)) == bytes,
{
    lemma_auto_spec_u64_to_from_le_bytes();
    lemma_auto_spec_u32_to_from_le_bytes();
    let comps = entry_components(bytes);
    let e = entry_bytes(entry_timestamp(bytes), comps);
    assert(comps.len() as u32 == entry_dim(bytes));
    assert(spec_u64_to_le_bytes(entry_timestamp(bytes)) == bytes.subrange(0, 8));
    assert(spec_u32_to_le_bytes(entry_dim(bytes)) == bytes.subrange(8, 12));
    assert forall|k: int| 0 <= k < bytes.len() implies #[trigger] e[k] == bytes[k] by {
        if k < 8 {
            assert(e[k] == bytes.subrange(0, 8)[k]);
        } else if k < HEADER_LEN {
            assert(e[k] == bytes.subrange(8, 12)[k - 8]);
        } else {
            let j = (k - HEADER_LEN) / 4;
            let r = (k - HEADER_LEN) % 4;
            assert(0 <= j < comps.len() && 0 <= r < 4 && k == HEADER_LEN + 4 * j + r)
                by (nonlinear_arith)
                requires
                    HEADER_LEN <= k < bytes.len(),
                    bytes.len() == HEADER_LEN + 4 * comps.len(),
                    j == (k - HEADER_LEN) / 4,
                    r == (k - HEADER_LEN) % 4,
            ;
            let w = bytes.subrange(HEADER_LEN + 4 * j, HEADER_LEN + 4 * j + 4);
            assert(comps[j] == spec_u32_from_le_bytes(w));
            assert(spec_u32_to_le_bytes(comps[j]) == w);
            assert(e[k] == components_bytes(comps)[k - HEADER_LEN]);
        }
    }
    assert(e =~= bytes);
}

/// The fields of an entry, read with the standard little-endian decoders:
/// the first 8 bytes are the timestamp, the next 4 the dimension, and the
/// component `j` sits in the 4 bytes from `12 + 4 * j`. A value is well
/// formed exactly when it holds the header and as many component bytes as
/// its dimension announces.
pub proof fn lemma_entry_fields(bytes: Seq<u8>, j: int)
    ensures
        entry_timestamp(bytes) == spec_u64_from_le_bytes(bytes.subrange(0, 8)),
        entry_dim(bytes) == spec_u32_from_le_bytes(bytes.subrange(8, 12)),
        is_well_formed(bytes) <==> (bytes.len() >= 12 && bytes.len() == 12 + 4 * spec_u32_from_le_bytes(
            bytes.subrange(8, 12),
        )),
        entry_components(bytes).len() == spec_u32_from_le_bytes(bytes.subrange(8, 12)),
        0 <= j < entry_components(bytes).len() ==> entry_components(bytes)[j] == spec_u32_from_le_bytes(
            bytes.subrange(12 + 4 * j, 16 + 4 * j),
        ),
{
}

/// What encoding writes, read back field by field with the standard
/// little-endian decoders: the timestamp, the number of components, and
/// each component in turn, for a vector of at most `u32::MAX` components.
pub proof fn lemma_encoded_fields(inserted_at: u64, bits: Seq<u32>, j: int)
    requires
        bits.len() <= u32::MAX,
    ensures
        entry_bytes(inserted_at, bits).len() == 12 + 4 * bits.len(),
        spec_u64_from_le_bytes(entry_bytes(inserted_at, bits).subrange(0, 8)) == inserted_at,
        spec_u32_from_le_bytes(entry_bytes(inserted_at, bits).subrange(8, 12)) == bits.len(),
        0 <= j < bits.len() ==> spec_u32_from_le_bytes(
            entry_bytes(inserted_at, bits).subrange(12 + 4 * j, 16 + 4 * j),
        ) == bits[j],
{
    lemma_encode_then_decode(inserted_at, bits);
    lemma_encoded_len(inserted_at, bits);
    if 0 <= j < bits.len() {
        assert(entry_components(entry_bytes(inserted_at, bits))[j] == bits[j]);
    }
}

/// Decimal digits: a digit `d` prints as the character `'0' + d`, and
/// `10 * q + d` prints as `q` followed by that character.
pub proof fn lemma_decimal_digits(q: nat, d: nat)
    requires
        d < 10,
    ensures
        decimal(d) == seq![(48 + d) as char],
        q > 0 ==> decimal(10 * q + d) == decimal(q).push((48 + d) as char),
{
    if q > 0 {
        let n = 10 * q + d;
        assert(n / 10 == q && n % 10 == d) by (nonlinear_arith)
            requires
                n == 10 * q + d,
                d < 10,
        ;
    }
}

/// An encoded entry takes the header plus four bytes per component.
pub proof fn lemma_encoded_len(inserted_at: u64, bits: Seq<u32>)
    ensures
        entry_bytes(inserted_at, bits).len() == HEADER_LEN + 4 * bits.len(),
{
    lemma_auto_spec_u64_to_from_le_bytes();
    lemma_auto_spec_u32_to_from_le_bytes();
}

} // verus!
