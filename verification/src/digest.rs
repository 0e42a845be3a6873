use vstd::prelude::*;

use sha1::Digest;

verus! {

/// The SHA-1 digest of a byte sequence, named but not defined here: the
/// algorithm itself is outside this library, and the contracts only rely on
/// the digest being a function of the input bytes.
pub uninterp spec fn sha1_of(bytes: Seq<u8>) -> Seq<u8>;

/// The 20 zero bytes that stand for "no parent" in the hash chain.
pub open spec fn zero_hash() -> Seq<u8> {
    Seq::new(20, |i: int| 0u8)
}

/// The content identity of a revision: the SHA-1 digest of 20 zero bytes,
/// then the parent revision's hash (20 zero bytes when there is no parent),
/// then the revision's content. The second branch keeps the model total; it
/// is never taken by the executable code, whose digest wrapper guarantees a
/// 20-byte result.
pub open spec fn chain_hash(parent: Seq<u8>, content: Seq<u8>) -> Seq<u8> {
    let d = sha1_of(zero_hash() + parent + content);
    if d.len() == 20 {
        d
    } else {
        zero_hash()
    }
}

/// Relies on sha1::Sha1 through digest::Digest::digest: the SHA-1 digest of
/// the input bytes, always 20 bytes long and a function of the input alone.
#[verifier::external_body]
fn sha1_digest(bytes: &[u8]) -> (r: Vec<u8>)
    ensures
        r@ == sha1_of(bytes@),
        r@.len() == 20,
{
    sha1::Sha1::digest(bytes).to_vec()
}

/// Computes the chained hash of a revision from its parent's hash and its
/// content bytes.
pub fn compute_chain_hash(parent: &[u8], content: &[u8]) -> (r: Vec<u8>)
    requires
        parent@.len() == 20,
    ensures
        r@ == chain_hash(parent@, content@),
        r@.len() == 20,
{
    let mut buf: Vec<u8> = vec![0u8; 20];
    buf.extend_from_slice(parent);
    buf.extend_from_slice(content);
    proof {
        assert(buf@ =~= zero_hash() + parent@ + content@);
    }
    sha1_digest(buf.as_slice())
}

} // verus!
