//! SHA-256, as computed by the `sha2` crate, and the short hexadecimal
//! names derived from it.

use vstd::prelude::*;
use sha2::{Digest, Sha256};
use crate::text::{hex_bytes, push_hex};

verus! {

/// The SHA-256 digest of `data`, as `sha2::Sha256` computes it.
pub uninterp spec fn sha256_of(data: Seq<u8>) -> Seq<u8>;

/// `sha2::Sha256::digest`: the digest of `data`. The contract names the
/// result and states its documented size, 32 bytes.
#[verifier::external_body]
pub(crate) fn sha256(data: &[u8]) -> (d: Vec<u8>)
    ensures
        d@ == sha256_of(data@),
        d@.len() == 32,
{
    Sha256::digest(data).to_vec()
}

/// The first `n` bytes of the digest of `data`, in lowercase hex.
pub open spec fn short_hex(data: Seq<u8>, n: nat) -> Seq<char> {
    hex_bytes(sha256_of(data).take(n as int))
}

/// Lowercase hex of the first `n` bytes of the SHA-256 of `data`.
pub fn short_digest_hex(data: &[u8], n: usize) -> (s: Vec<char>)
    requires
        n <= 32,
    ensures
        s@ == short_hex(data@, n as nat),
        s@.len() == 2 * n,
{
    let d = sha256(data);
    let mut out: Vec<char> = Vec::new();
    push_hex(&mut out, &d, n);
    assert(out@ =~= hex_bytes(d@.take(n as int)));
    proof {
        lemma_hex_len(d@.take(n as int));
    }
    out
}

/// Two hex digits per byte.
pub proof fn lemma_hex_len(bytes: Seq<u8>)
    ensures
        hex_bytes(bytes).len() == 2 * bytes.len(),
    decreases bytes.len(),
{
    if bytes.len() > 0 {
        lemma_hex_len(bytes.drop_last());
    }
}

} // verus!
