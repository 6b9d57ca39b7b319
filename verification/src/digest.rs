//! Multihash digest verification: the closed table of supported
//! hash-function codes and the recomputation of a block's digest.

use vstd::prelude::*;

use sha2::Digest;

use crate::cid::Cid;
use crate::cid::SpecCid;

verus! {

/// Multihash code of the identity function: the digest is the content.
pub const MH_IDENTITY: u64 = 0x00;

/// Multihash code of SHA-256.
pub const MH_SHA2_256: u64 = 0x12;

/// The SHA-256 digest of a byte sequence. The function is left without a
/// definition here; [`sha256`] is the only way to obtain its value.
pub uninterp spec fn sha256_of(bytes: Seq<u8>) -> Seq<u8>;

/// Relies on `sha2::Sha256`: the digest depends on the input bytes alone
/// and is always 32 bytes long.
#[verifier::external_body]
fn sha256(bytes: &[u8]) -> (r: Vec<u8>)
    ensures
        r@ == sha256_of(bytes@),
        r@.len() == 32,
{
    sha2::Sha256::digest(bytes).to_vec()
}

/// Whether `code` is in the supported multihash table.
pub open spec fn hash_supported(code: u64) -> bool {
    code == MH_IDENTITY || code == MH_SHA2_256
}

/// The digest that a supported hash function produces over `content`.
pub open spec fn multihash_digest(code: u64, content: Seq<u8>) -> Seq<u8> {
    if code == MH_IDENTITY {
        content
    } else {
        sha256_of(content)
    }
}

/// Whether recomputing the digest over `content`, with the hash function
/// named by `cid`, reproduces the digest stored in `cid`. An unsupported
/// hash code never verifies.
pub open spec fn digest_matches(cid: SpecCid, content: Seq<u8>) -> bool {
    hash_supported(cid.hash_code) && cid.digest == multihash_digest(cid.hash_code, content)
}

/// Byte-for-byte equality of two slices.
pub fn bytes_eq(a: &[u8], b: &[u8]) -> (r: bool)
    ensures
        r == (a@ == b@),
{
    if a.len() != b.len() {
        return false;
    }
    let mut i: usize = 0;
    while i < a.len()
        invariant
            i <= a@.len(),
            a@.len() == b@.len(),
            forall|k: int| 0 <= k < i ==> a@[k] == b@[k],
        decreases a@.len() - i,
    {
        if a[i] != b[i] {
            return false;
        }
        i = i + 1;
    }
    proof {
        assert(a@ =~= b@);
    }
    true
}

/// Recomputes the digest over `content` with the hash function named by
/// `cid` and compares it to the digest stored in `cid`.
pub fn verify_digest(cid: &Cid, content: &[u8]) -> (r: bool)
    ensures
        r == digest_matches(cid@, content@),
{
    if cid.hash_code == MH_IDENTITY {
        bytes_eq(cid.digest.as_slice(), content)
    } else if cid.hash_code == MH_SHA2_256 {
        let d = sha256(content);
        bytes_eq(cid.digest.as_slice(), d.as_slice())
    } else {
        false
    }
}

/// Verification is deterministic: recomputing a digest over identical
/// content with the same declared hash function always yields the same
/// outcome.
pub proof fn lemma_verification_deterministic(
    c1: SpecCid,
    c2: SpecCid,
    content1: Seq<u8>,
    content2: Seq<u8>,
)
    requires
        c1 == c2,
        content1 == content2,
    ensures
        digest_matches(c1, content1) == digest_matches(c2, content2),
{
}

} // verus!
