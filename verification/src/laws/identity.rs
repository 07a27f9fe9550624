//! Which models get the same identifier.
use vstd::prelude::*;
use vstd::utf8::{encode_scalar, encode_utf8, encode_utf8_decode_utf8};
use crate::digest::{
    managed_id, sha256_digest, source_bytes, MANAGED_CROSS_PROVIDER_MODEL_PREFIX,
};
use crate::text::{hex, lemma_hex_injective};

verus! {

/// Every identifier begins with the prefix.
pub proof fn law_identifiers_have_the_prefix(provider: Seq<char>, model: Seq<char>)
    ensures
        MANAGED_CROSS_PROVIDER_MODEL_PREFIX@.is_prefix_of(managed_id(provider, model)),
{
    let prefix = MANAGED_CROSS_PROVIDER_MODEL_PREFIX@;
    assert(managed_id(provider, model).take(prefix.len() as int) =~= prefix);
}

/// Two models get the same identifier exactly if the first halves of the digests
/// of their sources are the same.
pub proof fn law_identifiers_differ_as_the_digests_do(
    provider: Seq<char>,
    model: Seq<char>,
    other_provider: Seq<char>,
    other_model: Seq<char>,
)
    ensures
        managed_id(provider, model) == managed_id(other_provider, other_model) <==> sha256_digest(
            source_bytes(provider, model),
        ).take(16) == sha256_digest(source_bytes(other_provider, other_model)).take(16),
{
    let prefix = MANAGED_CROSS_PROVIDER_MODEL_PREFIX@;
    let a = sha256_digest(source_bytes(provider, model)).take(16);
    let b = sha256_digest(source_bytes(other_provider, other_model)).take(16);
    let n = prefix.len() as int;
    if managed_id(provider, model) == managed_id(other_provider, other_model) {
        assert((prefix + hex(a)).skip(n) =~= hex(a));
        assert((prefix + hex(b)).skip(n) =~= hex(b));
        lemma_hex_injective(a, b);
    }
}

/// The text does not hold the zero character.
pub open spec fn has_no_zero(s: Seq<char>) -> bool {
    forall|i: int| 0 <= i < s.len() ==> #[trigger] s[i] as u32 != 0
}

/// A character other than the zero character has no zero byte in UTF-8.
proof fn lemma_no_zero_in_scalar(c: u32)
    requires
        c != 0,
    ensures
        forall|i: int| 0 <= i < encode_scalar(c).len() ==> #[trigger] encode_scalar(c)[i] != 0u8,
{
    assert(0 < c <= 0x7f ==> (c & 0x7F) as u8 != 0u8) by (bit_vector);
    assert(0xC0u8 | ((c >> 6) & 0x1F) as u8 != 0u8) by (bit_vector);
    assert(0xE0u8 | ((c >> 12) & 0x0F) as u8 != 0u8) by (bit_vector);
    assert(0xF0u8 | ((c >> 18) & 0x7) as u8 != 0u8) by (bit_vector);
    assert(0x80u8 | (c & 0x3F) as u8 != 0u8) by (bit_vector);
    assert(0x80u8 | ((c >> 6) & 0x3F) as u8 != 0u8) by (bit_vector);
    assert(0x80u8 | ((c >> 12) & 0x3F) as u8 != 0u8) by (bit_vector);
}

/// A text without the zero character has no zero byte in UTF-8.
proof fn lemma_no_zero_byte(s: Seq<char>)
    requires
        has_no_zero(s),
    ensures
        forall|i: int| 0 <= i < encode_utf8(s).len() ==> #[trigger] encode_utf8(s)[i] != 0u8,
    decreases s.len(),
{
    if s.len() > 0 {
        let rest = s.drop_first();
        let first = encode_scalar(s[0] as u32);
        assert forall|i: int| 0 <= i < rest.len() implies #[trigger] rest[i] as u32 != 0 by {
            assert(rest[i] == s[i + 1]);
        }
        lemma_no_zero_byte(rest);
        lemma_no_zero_in_scalar(s[0] as u32);
        assert forall|i: int| 0 <= i < encode_utf8(s).len() implies #[trigger] encode_utf8(s)[i]
            != 0u8 by {
            if i < first.len() {
                assert(encode_utf8(s)[i] == first[i]);
            } else {
                assert(encode_utf8(s)[i] == encode_utf8(rest)[i - first.len()]);
            }
        }
    }
}

/// Different models have different bytes to be hashed, however much their
/// identifiers look alike, as long as no identifier of a provider holds the zero
/// character.
pub proof fn law_different_sources_have_different_bytes(
    provider: Seq<char>,
    model: Seq<char>,
    other_provider: Seq<char>,
    other_model: Seq<char>,
)
    requires
        has_no_zero(provider),
        has_no_zero(other_provider),
        source_bytes(provider, model) == source_bytes(other_provider, other_model),
    ensures
        provider == other_provider,
        model == other_model,
{
    let a = encode_utf8(provider);
    let b = encode_utf8(other_provider);
    let whole = source_bytes(provider, model);
    lemma_no_zero_byte(provider);
    lemma_no_zero_byte(other_provider);
    assert(whole[a.len() as int] == 0u8);
    assert(source_bytes(other_provider, other_model)[b.len() as int] == 0u8);
    if a.len() < b.len() {
        assert(source_bytes(other_provider, other_model)[a.len() as int] == b[a.len() as int]);
    }
    if b.len() < a.len() {
        assert(whole[b.len() as int] == a[b.len() as int]);
    }
    let n = a.len() as int;
    assert(whole.take(n) =~= a);
    assert(source_bytes(other_provider, other_model).take(n) =~= b);
    assert(whole.skip(n + 1) =~= encode_utf8(model));
    assert(source_bytes(other_provider, other_model).skip(n + 1) =~= encode_utf8(other_model));
    encode_utf8_decode_utf8(provider);
    encode_utf8_decode_utf8(other_provider);
    encode_utf8_decode_utf8(model);
    encode_utf8_decode_utf8(other_model);
}

} // verus!
