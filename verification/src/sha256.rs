//! Per-chunk digests: SHA-256 over a chunk's bytes, rendered as a lowercase
//! hexadecimal line, exactly as one line of a digest file holds it.

use vstd::prelude::*;
use sha2::Digest;
use crate::hex::{hex_of, to_hex};

verus! {

/// The SHA-256 digest of a byte sequence. The hash is a pure function of
/// its input, so its value is only named here, never stated.
pub uninterp spec fn sha256_of(data: Seq<u8>) -> Seq<u8>;

/// Relies on sha2::Sha256 through the digest crate's `Digest::digest`: it
/// hashes exactly the bytes given, depends on them alone, and returns the
/// 32-byte SHA-256 digest.
#[verifier::external_body]
fn sha256_bytes(data: &[u8]) -> (r: Vec<u8>)
    ensures
        r@ == sha256_of(data@),
        r@.len() == 32,
{
    sha2::Sha256::digest(data).to_vec()
}

/// The text of the digest line for a chunk: the lowercase hexadecimal
/// encoding of the chunk's SHA-256 digest.
pub open spec fn digest_line_of(chunk: Seq<u8>) -> Seq<char> {
    hex_of(sha256_of(chunk))
}

/// Computes the digest line for one chunk of data. The line is 64
/// characters: two hexadecimal digits for each of the 32 digest bytes.
pub fn chunk_digest(chunk: &[u8]) -> (r: String)
    ensures
        r@ == digest_line_of(chunk@),
        r@.len() == 64,
{
    let digest = sha256_bytes(chunk);
    proof {
        crate::hex::lemma_hex_of_len(digest@);
    }
    to_hex(digest.as_slice())
}

} // verus!
