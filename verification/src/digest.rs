//! The fingerprinter: a fixed-size content digest of a URL string, used as
//! the dedup key of the canonical store.

use vstd::prelude::*;
use sha2::Digest;

verus! {

/// The SHA-256 digest of a string's characters. The value is a function of
/// the input alone; it is left abstract here and realized by the `sha2`
/// crate in `sha256_bytes`.
pub uninterp spec fn sha256_of(s: Seq<char>) -> Seq<u8>;

/// Relies on sha2::Sha256 (update over the string's UTF-8 bytes, then
/// finalize): the digest is 32 bytes long and depends on the input bytes
/// alone.
#[verifier::external_body]
pub(crate) fn sha256_bytes(s: &str) -> (d: Vec<u8>)
    ensures
        d@ == sha256_of(s@),
        d@.len() == 32,
{
    let mut hasher = sha2::Sha256::new();
    hasher.update(s.as_bytes());
    hasher.finalize().to_vec()
}

/// Computes the fixed-size content digest of a URL. Pure and deterministic:
/// the result is `sha256_of` of the input characters, so byte-identical
/// inputs yield byte-identical digests.
pub fn fingerprint(url: &str) -> (d: Vec<u8>)
    ensures
        d@ == sha256_of(url@),
        d@.len() == 32,
{
    sha256_bytes(url)
}

/// Law: the fingerprint is a pure function of the URL's characters; equal
/// inputs always produce equal digests, in any process at any time.
pub proof fn lemma_fingerprint_deterministic(u1: Seq<char>, u2: Seq<char>)
    requires
        u1 == u2,
    ensures
        sha256_of(u1) == sha256_of(u2),
{
}

} // verus!
