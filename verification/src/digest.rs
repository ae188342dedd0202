//! SHA-256 digests of byte strings, rendered as lowercase hexadecimal.
use vstd::prelude::*;

verus! {

/// The SHA-256 digest of a byte string.
pub uninterp spec fn sha256_spec(data: Seq<u8>) -> Seq<u8>;

/// `sha2::Sha256::digest`: the 32-byte SHA-256 digest of `data`.
///
/// Trusted: the result is the digest named `sha256_spec(data)`, and it has 32 bytes (the
/// output size of `Sha256`). Nothing else is claimed of the hash function.
#[verifier::external_body]
pub(crate) fn sha256_bytes(data: &[u8]) -> (r: Vec<u8>)
    ensures
        r@ == sha256_spec(data@),
        r@.len() == 32,
{
    <sha2::Sha256 as sha2::Digest>::digest(data).to_vec()
}

/// The lowercase hexadecimal digit for a nibble.
pub open spec fn hex_digit(n: u8) -> char {
    if n < 10 {
        (('0' as u8) + n) as char
    } else {
        (('a' as u8) + (n - 10)) as char
    }
}

/// Two lowercase hexadecimal digits per byte, high nibble first.
pub open spec fn hex_spec(data: Seq<u8>) -> Seq<char>
    decreases data.len(),
{
    if data.len() == 0 {
        seq![]
    } else {
        hex_spec(data.drop_last()) + seq![hex_digit(data.last() / 16), hex_digit(data.last() % 16)]
    }
}

/// `hex::encode`: each byte as two lowercase hexadecimal digits, high nibble first.
///
/// Trusted: the crate's encoder maps every byte through the table `0123456789abcdef`,
/// high nibble then low nibble, which is `hex_spec`.
#[verifier::external_body]
pub(crate) fn hex_encode_bytes(data: &[u8]) -> (r: String)
    ensures
        r@ == hex_spec(data@),
{
    hex::encode(data)
}

/// The lowercase hexadecimal SHA-256 digest of `data`.
pub open spec fn digest_hex_spec(data: Seq<u8>) -> Seq<char> {
    hex_spec(sha256_spec(data))
}

/// The lowercase hexadecimal SHA-256 digest of `data`, as every persisted digest is spelled.
pub fn digest_hex(data: &[u8]) -> (r: String)
    ensures
        r@ == digest_hex_spec(data@),
        r@.len() == 64,
{
    let d = sha256_bytes(data);
    let r = hex_encode_bytes(d.as_slice());
    proof {
        lemma_hex_len(d@);
    }
    r
}

pub proof fn lemma_hex_len(data: Seq<u8>)
    ensures
        hex_spec(data).len() == 2 * data.len(),
    decreases data.len(),
{
    if data.len() > 0 {
        lemma_hex_len(data.drop_last());
    }
}

} // verus!
