//! Stable identifiers for models that are copied from another provider.
use vstd::prelude::*;
use vstd::string::*;
use vstd::utf8::encode_utf8;
use sha2::{Digest, Sha256};
use crate::text::{hex, hex_encode, lemma_hex_len};

verus! {

/// The prefix of the identifiers. It makes them easy to recognise; ownership
/// never rests on it.
pub const MANAGED_CROSS_PROVIDER_MODEL_PREFIX: &'static str = "ccswitch_xprov_";

/// The SHA-256 digest of some bytes.
pub uninterp spec fn sha256_digest(data: Seq<u8>) -> Seq<u8>;

/// `Sha256::digest`: the digest, thirty-two bytes, depends on the bytes alone.
#[verifier::external_body]
fn sha256(data: &[u8]) -> (r: Vec<u8>)
    ensures
        r@ == sha256_digest(data@),
        r@.len() == 32,
{
    Sha256::digest(data).to_vec()
}

/// The bytes that stand for a model of a provider: both identifiers in UTF-8,
/// with a zero byte between them.
pub open spec fn source_bytes(provider: Seq<char>, model: Seq<char>) -> Seq<u8> {
    encode_utf8(provider) + seq![0u8] + encode_utf8(model)
}

/// The identifier for a model of a provider: the prefix, and the first half of
/// the digest in hexadecimal.
pub open spec fn managed_id(provider: Seq<char>, model: Seq<char>) -> Seq<char> {
    MANAGED_CROSS_PROVIDER_MODEL_PREFIX@ + hex(sha256_digest(source_bytes(provider, model)).take(16))
}

/// The identifier under which a model of another provider is kept, unless the
/// name is taken: the prefix and thirty-two digits. The set of existing models has no influence on it.
pub fn managed_cross_provider_model_id(
    source_provider_id: &str,
    source_model_id: &str,
    _existing_models: &std::collections::HashSet<String>,
) -> (r: String)
    ensures
        r@ == managed_id(source_provider_id@, source_model_id@),
        r@.len() == 47,
{
    preferred_id(source_provider_id, source_model_id)
}

/// See [`managed_cross_provider_model_id`].
pub(crate) fn preferred_id(source_provider_id: &str, source_model_id: &str) -> (r: String)
    ensures
        r@ == managed_id(source_provider_id@, source_model_id@),
        r@.len() == 47,
{
    let mut bytes: Vec<u8> = Vec::new();
    bytes.extend_from_slice(source_provider_id.as_bytes());
    bytes.push(0u8);
    bytes.extend_from_slice(source_model_id.as_bytes());
    assert(bytes@ =~= source_bytes(source_provider_id@, source_model_id@));
    let mut digest = sha256(bytes.as_slice());
    digest.truncate(16);
    assert(digest@ =~= sha256_digest(bytes@).take(16));
    let mut id = MANAGED_CROSS_PROVIDER_MODEL_PREFIX.to_owned();
    id.append(hex_encode(digest.as_slice()).as_str());
    proof {
        reveal_strlit("ccswitch_xprov_");
        assert(MANAGED_CROSS_PROVIDER_MODEL_PREFIX@.len() == 15);
        lemma_hex_len(digest@);
    }
    id
}

} // verus!
