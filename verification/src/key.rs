//! Content-addressed keys.
//!
//! The key of `(model, text)` is the blake3 digest of the model's UTF-8
//! bytes, a zero byte, and the text's UTF-8 bytes. The zero byte keeps
//! `(model = "a", text = "bc")` apart from `(model = "ab", text = "c")`.

use vstd::prelude::*;
use vstd::slice::slice_to_vec;
use vstd::string::StringSliceAdditionalSpecFns;
use vstd::utf8::*;

verus! {

/// The 32-byte blake3 digest of `input`.
pub uninterp spec fn blake3_digest(input: Seq<u8>) -> Seq<u8>;

/// `blake3::hash`: trusted to return, as 32 bytes, the
/// digest named `blake3_digest` of the bytes hashed, so that equal inputs
/// give equal digests. Nothing is claimed of how the digest is computed.
#[verifier::external_body]
fn blake3_hash(input: &[u8]) -> (digest: [u8; 32])
    ensures
        digest@ == blake3_digest(input@),
{
    *blake3::hash(input).as_bytes()
}

/// The bytes that are hashed for `(model, text)`.
pub open spec fn key_preimage(model: Seq<u8>, text: Seq<u8>) -> Seq<u8> {
    model + seq![0u8] + text
}

/// The key of `(model, text)`, over the strings' UTF-8 bytes.
pub open spec fn spec_key(model: Seq<char>, text: Seq<char>) -> Seq<u8> {
    blake3_digest(key_preimage(encode_utf8(model), encode_utf8(text)))
}

/// 32-byte content-addressed key for `(model, text)`.
pub fn key(model: &str, text: &str) -> (k: [u8; 32])
    ensures
        k@ == spec_key(model@, text@),
        k@ == blake3_digest(model.spec_bytes() + seq![0u8] + text.spec_bytes()),
{
    let mut preimage: Vec<u8> = slice_to_vec(model.as_bytes());
    preimage.push(0u8);
    let mut text_bytes: Vec<u8> = slice_to_vec(text.as_bytes());
    preimage.append(&mut text_bytes);
    assert(preimage@ =~= key_preimage(encode_utf8(model@), encode_utf8(text@)));
    blake3_hash(preimage.as_slice())
}

/// The key hashes the whole pair: every UTF-8 byte of the model name, one
/// zero byte, then every UTF-8 byte of the text, with nothing cut off or
/// reordered.
pub proof fn lemma_key_hashes_whole_pair(model: Seq<char>, text: Seq<char>)
    ensures
        spec_key(model, text) == blake3_digest(encode_utf8(model) + seq![0u8] + encode_utf8(text)),
        key_preimage(encode_utf8(model), encode_utf8(text)).len() == encode_utf8(model).len() + 1
            + encode_utf8(text).len(),
{
}

/// Keys of two pairs are digests of different bytes whenever the texts'
/// UTF-8 encodings differ, whatever their length: for one model name, the
/// hashed bytes of `(model, text1)` and `(model, text2)` agree only when
/// the texts are equal.
pub proof fn lemma_distinct_texts_distinct_preimages(model: Seq<char>, text1: Seq<char>, text2: Seq<char>)
    requires
        text1 != text2,
    ensures
        encode_utf8(model) + seq![0u8] + encode_utf8(text1) != encode_utf8(model) + seq![0u8]
            + encode_utf8(text2),
{
    let m = encode_utf8(model) + seq![0u8];
    if m + encode_utf8(text1) == m + encode_utf8(text2) {
        assert(encode_utf8(text1) =~= (m + encode_utf8(text1)).subrange(m.len() as int, (m + encode_utf8(text1)).len() as int));
        assert(encode_utf8(text2) =~= (m + encode_utf8(text2)).subrange(m.len() as int, (m + encode_utf8(text2)).len() as int));
        encode_utf8_decode_utf8(text1);
        encode_utf8_decode_utf8(text2);
    }
}

/// A model name has no NUL character.
pub open spec fn nul_free(model: Seq<char>) -> bool {
    forall|i: int| 0 <= i < model.len() ==> model[i] as u32 != 0
}

/// The UTF-8 encoding of a string without NUL characters holds no zero byte.
pub proof fn lemma_nul_free_encoding(chars: Seq<char>)
    requires
        nul_free(chars),
    ensures
        !encode_utf8(chars).contains(0u8),
    decreases chars.len(),
{
    if chars.len() > 0 {
        let c = chars[0] as u32;
        char_is_scalar(chars[0]);
        let head = encode_scalar(c);
        assert(c != 0);
        if has_width_1_encoding(c) {
            assert((c & 0x7F) as u8 != 0) by (bit_vector)
                requires
                    c != 0 && c <= 0x7F,
            ;
        } else {
            assert(0xC0u8 | ((c >> 6) & 0x1F) as u8 != 0) by (bit_vector);
            assert(0xE0u8 | ((c >> 12) & 0x0F) as u8 != 0) by (bit_vector);
            assert(0xF0u8 | ((c >> 18) & 0x7) as u8 != 0) by (bit_vector);
            assert(0x80u8 | (c & 0x3F) as u8 != 0) by (bit_vector);
            assert(0x80u8 | ((c >> 6) & 0x3F) as u8 != 0) by (bit_vector);
            assert(0x80u8 | ((c >> 12) & 0x3F) as u8 != 0) by (bit_vector);
        }
        assert(!head.contains(0u8));
        let rest = chars.drop_first();
        assert(nul_free(rest)) by {
            assert forall|i: int| 0 <= i < rest.len() implies rest[i] as u32 != 0 by {
                assert(rest[i] == chars[i + 1]);
            }
        }
        lemma_nul_free_encoding(rest);
        let all = encode_utf8(chars);
        assert(all == head + encode_utf8(rest));
        if all.contains(0u8) {
            let k = choose|k: int| 0 <= k < all.len() && all[k] == 0u8;
            if k < head.len() {
                assert(head[k] == 0u8);
            } else {
                assert(encode_utf8(rest)[k - head.len()] == 0u8);
            }
        }
    }
}

/// The zero separator makes the hashed bytes determine the pair: when
/// neither model name holds a zero byte, equal preimages come from equal
/// models and equal texts.
pub proof fn lemma_preimage_determines_pair(m1: Seq<u8>, t1: Seq<u8>, m2: Seq<u8>, t2: Seq<u8>)
    requires
        !m1.contains(0u8),
        !m2.contains(0u8),
        key_preimage(m1, t1) == key_preimage(m2, t2),
    ensures
        m1 == m2,
        t1 == t2,
{
    let p = key_preimage(m1, t1);
    assert(p == key_preimage(m2, t2));
    if m1.len() < m2.len() {
        assert(p[m1.len() as int] == 0u8);
        assert(key_preimage(m2, t2)[m1.len() as int] == m2[m1.len() as int]);
        assert(m2.contains(0u8));
    } else if m2.len() < m1.len() {
        assert(key_preimage(m2, t2)[m2.len() as int] == 0u8);
        assert(p[m2.len() as int] == m1[m2.len() as int]);
        assert(m1.contains(0u8));
    }
    assert(m1 =~= p.subrange(0, m1.len() as int));
    assert(m2 =~= key_preimage(m2, t2).subrange(0, m2.len() as int));
    assert(t1 =~= p.subrange(m1.len() as int + 1, p.len() as int));
    assert(t2 =~= key_preimage(m2, t2).subrange(m2.len() as int + 1, p.len() as int));
}

/// Distinct `(model, text)` pairs hash distinct bytes, for model names
/// without NUL characters: the key of one pair can only equal the key of
/// another through a blake3 collision.
pub proof fn lemma_distinct_pairs_distinct_preimages(
    model1: Seq<char>,
    text1: Seq<char>,
    model2: Seq<char>,
    text2: Seq<char>,
)
    requires
        nul_free(model1),
        nul_free(model2),
        model1 != model2 || text1 != text2,
    ensures
        key_preimage(encode_utf8(model1), encode_utf8(text1)) != key_preimage(
            encode_utf8(model2),
            encode_utf8(text2),
        ),
{
    lemma_nul_free_encoding(model1);
    lemma_nul_free_encoding(model2);
    if key_preimage(encode_utf8(model1), encode_utf8(text1)) == key_preimage(
        encode_utf8(model2),
        encode_utf8(text2),
    ) {
        lemma_preimage_determines_pair(
            encode_utf8(model1),
            encode_utf8(text1),
            encode_utf8(model2),
            encode_utf8(text2),
        );
        encode_utf8_decode_utf8(model1);
        encode_utf8_decode_utf8(model2);
        encode_utf8_decode_utf8(text1);
        encode_utf8_decode_utf8(text2);
    }
}

} // verus!
