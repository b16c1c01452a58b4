//! The SHA-256 digest that identifies a capture.

use sha2::{Digest, Sha256};
use vstd::prelude::*;

use crate::text::hex;
#[allow(unused_imports)]
use crate::text::hex_text;

verus! {

/// The SHA-256 digest of some bytes.
pub uninterp spec fn sha256_of(data: Seq<u8>) -> Seq<u8>;

/// `sha2::Sha256`, fed with all bytes at once: the 32 bytes of the digest, which
/// follow from the bytes alone.
#[verifier::external_body]
fn sha256(data: &[u8]) -> (r: Vec<u8>)
    ensures
        r@ == sha256_of(data@),
        r@.len() == 32,
{
    let mut h = Sha256::new();
    h.update(data);
    h.finalize().to_vec()
}

/// Two hexadecimal digits for every byte.
pub proof fn lemma_hex_len(b: Seq<u8>)
    ensures
        hex_text(b).len() == 2 * b.len(),
    decreases b.len(),
{
    if b.len() > 0 {
        lemma_hex_len(b.drop_last());
    }
}

/// The SHA-256 digest of some bytes in lower-case hexadecimal.
pub fn sha256_hex(data: &[u8]) -> (r: String)
    ensures
        r@ == hex_text(sha256_of(data@)),
        r@.len() == 64,
{
    let digest: Vec<u8> = sha256(data);
    proof {
        lemma_hex_len(digest@);
    }
    hex(digest.as_slice())
}

} // verus!
