//! Content fingerprints: a cryptographic digest of a byte buffer, rendered
//! as lowercase hex. The fingerprint is what the store compares to decide
//! whether a file's content really changed.

use vstd::prelude::*;

verus! {

/// The fingerprint of a byte buffer. The digest is a fixed function of the
/// bytes alone, so it carries a name here rather than a transcription of
/// the algorithm; `digest` below is the one way to compute it.
pub uninterp spec fn digest_of(bytes: Seq<u8>) -> Seq<char>;

/// Relies on sha2::Sha256 (a pure, deterministic digest of the input
/// bytes) and on the lowercase-hex formatting of its 32-byte output,
/// which writes exactly two hex digits per byte.
#[verifier::external_body]
pub fn digest(content: &[u8]) -> (r: String)
    ensures
        r@ == digest_of(content@),
        r@.len() == 64,
{
    let mut hasher = <sha2::Sha256 as sha2::Digest>::new();
    sha2::Digest::update(&mut hasher, content);
    let result = sha2::Digest::finalize(hasher);
    format!("{:x}", result)
}

/// Law: the fingerprint function is deterministic — equal byte buffers
/// always carry equal digests.
pub proof fn lemma_digest_deterministic(b1: Seq<u8>, b2: Seq<u8>)
    requires
        b1 == b2,
    ensures
        digest_of(b1) == digest_of(b2),
{
}

} // verus!
