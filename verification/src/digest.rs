//! SHA-256 digests and the identities built from them.

use sha2::Digest;
use vstd::prelude::*;

use crate::text;
use crate::text::{concat2, hex_digest};

verus! {

/// What SHA-256 returns for the given bytes.
pub uninterp spec fn sha256_digest(data: Seq<u8>) -> Seq<u8>;

/// `sha2::Sha256::digest`: 32 bytes that depend on the data alone.
#[verifier::external_body]
pub(crate) fn sha256(data: &[u8]) -> (digest: Vec<u8>)
    ensures
        digest@ == sha256_digest(data@),
        digest@.len() == 32,
{
    sha2::Sha256::digest(data).to_vec()
}

/// The content identity of an artifact: the digest of its bytes in
/// hexadecimal behind the name of the algorithm.
pub open spec fn content_identity(data: Seq<u8>) -> Seq<char> {
    "sha256:"@ + text::hex(sha256_digest(data))
}

/// The content identity of an artifact.
pub fn artifact_digest(bytes: &[u8]) -> (identity: String)
    ensures
        identity@ == content_identity(bytes@),
        sha256_digest(bytes@).len() == 32,
{
    let digest = sha256(bytes);
    let digits = hex_digest(digest.as_slice());
    concat2("sha256:", digits.as_str())
}

/// Artifacts have the same content identity exactly where SHA-256 returns the
/// same digest for them.
pub proof fn law_identity_tells_digests_apart(a: Seq<u8>, b: Seq<u8>)
    ensures
        content_identity(a) == content_identity(b) <==> sha256_digest(a) == sha256_digest(b),
{
    let x = text::hex(sha256_digest(a));
    let y = text::hex(sha256_digest(b));
    let p = "sha256:"@;
    if content_identity(a) == content_identity(b) {
        assert((p + x).skip(p.len() as int) =~= x);
        assert((p + y).skip(p.len() as int) =~= y);
        text::lemma_hex_injective(sha256_digest(a), sha256_digest(b));
    }
}

/// A content identity is the name of the algorithm and the digest, byte by byte in
/// two small hexadecimal digits each.
pub proof fn law_identities_can_be_read_back(data: Seq<u8>)
    ensures
        ({
            let identity = content_identity(data);
            let digest = sha256_digest(data);
            &&& identity.len() == 7 + 2 * digest.len()
            &&& "sha256:"@.is_prefix_of(identity)
            &&& forall|i: int|
                0 <= i < digest.len() ==> 16 * text::hex_value(identity[7 + 2 * i])
                    + text::hex_value(identity[7 + 2 * i + 1]) == #[trigger] digest[i]
        }),
{
    reveal_strlit("sha256:");
    let identity = content_identity(data);
    let digest = sha256_digest(data);
    let digits = text::hex(digest);
    text::law_hex_can_be_read_back(digest);
    assert(identity.take(7) =~= "sha256:"@);
    assert forall|i: int| 0 <= i < digest.len() implies 16 * text::hex_value(identity[7 + 2 * i])
        + text::hex_value(identity[7 + 2 * i + 1]) == #[trigger] digest[i] by {
        assert(identity[7 + 2 * i] == digits[2 * i]);
        assert(identity[7 + 2 * i + 1] == digits[2 * i + 1]);
    }
}

} // verus!
