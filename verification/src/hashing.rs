//! SHA-256 and hexadecimal text, as the rest of the crate sees them.

use k256::sha2::Digest;
use vstd::prelude::*;

verus! {

/// The SHA-256 digest of `data`.
pub uninterp spec fn sha256_digest(data: Seq<u8>) -> [u8; 32];

/// Computes SHA-256 with `Sha256::digest` of the `sha2` crate that `k256`
/// re-exports. Trusted: the 32 bytes returned are the digest of `data`, and
/// depend on nothing else.
#[verifier::external_body]
pub(crate) fn sha256(data: &[u8]) -> (out: [u8; 32])
    ensures
        out == sha256_digest(data@),
{
    k256::sha2::Sha256::digest(data).into()
}

/// The lower-case hexadecimal digit for a value below sixteen.
pub open spec fn hex_digit(d: int) -> char {
    if d == 0 {
        '0'
    } else if d == 1 {
        '1'
    } else if d == 2 {
        '2'
    } else if d == 3 {
        '3'
    } else if d == 4 {
        '4'
    } else if d == 5 {
        '5'
    } else if d == 6 {
        '6'
    } else if d == 7 {
        '7'
    } else if d == 8 {
        '8'
    } else if d == 9 {
        '9'
    } else if d == 10 {
        'a'
    } else if d == 11 {
        'b'
    } else if d == 12 {
        'c'
    } else if d == 13 {
        'd'
    } else if d == 14 {
        'e'
    } else {
        'f'
    }
}

/// Lower-case hexadecimal text of `bytes`: two digits per byte, the high
/// half first.
pub open spec fn hex_string(bytes: Seq<u8>) -> Seq<char> {
    Seq::new(
        2 * bytes.len(),
        |i: int|
            if i % 2 == 0 {
                hex_digit(bytes[i / 2] as int / 16)
            } else {
                hex_digit(bytes[i / 2] as int % 16)
            },
    )
}

/// Encodes with `hex::encode`. Trusted: the text holds, for each byte in
/// order, its two lower-case hexadecimal digits.
#[verifier::external_body]
pub(crate) fn hex_encode(data: &[u8]) -> (out: String)
    ensures
        out@ == hex_string(data@),
{
    hex::encode(data)
}

} // verus!
