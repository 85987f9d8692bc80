//! The digest utility: a fast one-way anonymising hash used only to redact
//! identities before they reach logs. It has no per-use randomness and must
//! never be used to verify or compare secrets.

use sha2::Digest;
use vstd::prelude::*;

verus! {

/// The upper-case hexadecimal form of the SHA-256 digest of the string's
/// bytes. Names the result of `sha2::Sha256::digest` followed by upper-hex
/// formatting: a function of the input string alone.
pub uninterp spec fn sha256_hex_of(s: Seq<char>) -> Seq<char>;

/// Relies on `sha2::Sha256::digest` (a 32-byte digest, a function of the
/// input bytes alone) and on the upper-hex formatting of its output, which
/// prints exactly two hexadecimal digits per byte.
#[verifier::external_body]
pub fn anonymise(s: &String) -> (r: String)
    ensures
        r@ == sha256_hex_of(s@),
        r@.len() == 64,
{
    let hash = sha2::Sha256::digest(s.as_bytes());
    format!("{:X}", hash)
}

} // verus!
