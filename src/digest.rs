//! Content fingerprints: SHA-256 of a file's bytes in Crockford base-32.
use vstd::prelude::*;
use sha2::Digest;
use crate::names::{lower_char, lower_char_exec, lower_seq};

verus! {

/// The SHA-256 digest of a byte sequence.
pub uninterp spec fn sha256_of(data: Seq<u8>) -> Seq<u8>;

/// The Crockford base-32 text of a byte sequence, without padding.
pub uninterp spec fn crockford_of(data: Seq<u8>) -> Seq<char>;

/// A character of the Crockford base-32 alphabet: a digit, or an upper
/// case letter other than I, L, O and U.
pub open spec fn is_crockford_char(c: char) -> bool {
    ('0' <= c && c <= '9') || ('A' <= c && c <= 'Z' && c != 'I' && c != 'L' && c != 'O' && c != 'U')
}

/// The fingerprint of a file's contents.
pub open spec fn fingerprint(data: Seq<u8>) -> Seq<char> {
    crockford_of(sha256_of(data))
}

/// Whether two fingerprints are the same, letters compared without regard to case.
pub open spec fn digests_match(a: Seq<char>, b: Seq<char>) -> bool {
    lower_seq(a) == lower_seq(b)
}

/// Relies on `sha2::Sha256::digest`: the 32-byte SHA-256 digest of the data.
#[verifier::external_body]
fn sha256(data: &[u8]) -> (r: Vec<u8>)
    ensures
        r@ == sha256_of(data@),
        r@.len() == 32,
{
    sha2::Sha256::digest(data).to_vec()
}

/// Relies on `base32::encode` with the Crockford alphabet: the encoding has
/// no padding, so eight characters stand for every five bytes and a partial
/// group is cut to the characters that it needs; every character comes
/// from the alphabet `0123456789ABCDEFGHJKMNPQRSTVWXYZ`.
#[verifier::external_body]
fn crockford(data: &[u8]) -> (r: String)
    ensures
        r@ == crockford_of(data@),
        r@.len() == (8 * data@.len() + 4) / 5,
        forall|i: int| 0 <= i < r@.len() ==> is_crockford_char(#[trigger] r@[i]),
{
    base32::encode(base32::Alphabet::Crockford, data)
}

/// The fingerprint of a file's contents: their SHA-256 digest in Crockford
/// base-32 (52 characters).
pub fn content_digest(data: &[u8]) -> (r: String)
    ensures
        r@ == fingerprint(data@),
        r@.len() == 52,
        forall|i: int| 0 <= i < r@.len() ==> is_crockford_char(#[trigger] r@[i]),
{
    let hash = sha256(data);
    crockford(hash.as_slice())
}

/// Whether two fingerprints name the same contents; the comparison ignores
/// the case of letters.
pub fn same_digest(a: &str, b: &str) -> (r: bool)
    ensures
        r == digests_match(a@, b@),
{
    let n = a.unicode_len();
    if n != b.unicode_len() {
        proof {
            assert(lower_seq(a@).len() != lower_seq(b@).len());
        }
        return false;
    }
    let mut i: usize = 0;
    while i < n
        invariant
            i <= n,
            n == a@.len(),
            n == b@.len(),
            forall|k: int| 0 <= k < i ==> lower_char(a@[k]) == lower_char(b@[k]),
        decreases n - i,
    {
        let x = lower_char_exec(a.get_char(i));
        let y = lower_char_exec(b.get_char(i));
        if x != y {
            proof {
                assert(lower_seq(a@)[i as int] != lower_seq(b@)[i as int]);
            }
            return false;
        }
        i = i + 1;
    }
    assert(lower_seq(a@) =~= lower_seq(b@));
    true
}

} // verus!
