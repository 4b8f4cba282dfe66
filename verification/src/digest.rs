//! SHA-256 fingerprints, written as lower-case hexadecimal text.

use sha2::Digest;
use vstd::prelude::*;

verus! {

/// The SHA-256 digest of `data`. The algorithm is not restated here; the
/// digest is only known to be a function of the bytes that were hashed.
pub uninterp spec fn sha256_digest(data: Seq<u8>) -> Seq<u8>;

/// The sixteen lower-case hexadecimal digits, by value.
pub open spec fn hex_digits() -> Seq<char> {
    seq!['0', '1', '2', '3', '4', '5', '6', '7', '8', '9', 'a', 'b', 'c', 'd', 'e', 'f']
}

/// Two lower-case hexadecimal digits for each byte, the high half first.
pub open spec fn hex_lower(data: Seq<u8>) -> Seq<char> {
    Seq::new(
        2 * data.len(),
        |i: int|
            if i % 2 == 0 {
                hex_digits()[(data[i / 2] / 16) as int]
            } else {
                hex_digits()[(data[i / 2] % 16) as int]
            },
    )
}

/// The text form of a fingerprint: the digest of `data` in hexadecimal.
pub open spec fn fingerprint(data: Seq<u8>) -> Seq<char> {
    hex_lower(sha256_digest(data))
}

/// Calls `sha2::Sha256::digest` (the `Digest` trait's one-shot function) on
/// `data` and copies the output array into a vector. Trusted: the result is
/// the SHA-256 digest of exactly these bytes, so equal inputs give equal
/// outputs, and it is 32 bytes long, which is the output size that the type
/// `Sha256` fixes. Nothing is claimed about the bytes themselves.
#[verifier::external_body]
fn sha256(data: &[u8]) -> (out: Vec<u8>)
    ensures
        out@ == sha256_digest(data@),
        out@.len() == 32,
{
    sha2::Sha256::digest(data).to_vec()
}

/// Calls `hex::encode`. Trusted: the result holds, for each input byte in
/// order, the digit of its high four bits and then the digit of its low four
/// bits, taken from `0123456789abcdef`.
#[verifier::external_body]
fn hex_encode(data: &[u8]) -> (text: String)
    ensures
        text@ == hex_lower(data@),
{
    hex::encode(data)
}

/// A fingerprint as it is written: 64 lower-case hexadecimal digits, two for
/// each of the 32 bytes of a digest.
pub open spec fn is_fingerprint(text: Seq<char>) -> bool {
    text.len() == 64 && forall|i: int| 0 <= i < text.len() ==> hex_digits().contains(#[trigger] text[i])
}

/// The hexadecimal form is twice as long as the bytes it writes, and holds
/// hexadecimal digits only.
pub proof fn lemma_hex_lower_shape(data: Seq<u8>)
    ensures
        hex_lower(data).len() == 2 * data.len(),
        forall|i: int|
            0 <= i < hex_lower(data).len() ==> hex_digits().contains(#[trigger] hex_lower(data)[i]),
{
    assert forall|i: int| 0 <= i < hex_lower(data).len() implies hex_digits().contains(
        #[trigger] hex_lower(data)[i],
    ) by {
        let b = data[i / 2];
        let n: int = if i % 2 == 0 {
            (b / 16) as int
        } else {
            (b % 16) as int
        };
        assert(0 <= n < 16);
        assert(hex_lower(data)[i] == hex_digits()[n]);
    }
}

/// Hashes `data` with SHA-256 and writes the 256 bits of the digest as 64
/// hexadecimal digits.
pub fn sha256_hex(data: &[u8]) -> (text: String)
    ensures
        text@ == fingerprint(data@),
        is_fingerprint(text@),
{
    let out = sha256(data);
    proof {
        lemma_hex_lower_shape(out@);
    }
    hex_encode(out.as_slice())
}

} // verus!
