//! The hasher: SHA-256 over text, presented as a lower-case hex string.
//!
//! Every hash stored in the tree is produced here, so the whole tree speaks
//! the language of `hex_of` and `sha256_of`.

use vstd::prelude::*;

use digest::Digest;

verus! {

/// The lower-case hex digit standing for a value below sixteen.
pub open spec fn hex_digit(n: u8) -> char
    recommends
        n < 16,
{
    if n == 0 {
        '0'
    } else if n == 1 {
        '1'
    } else if n == 2 {
        '2'
    } else if n == 3 {
        '3'
    } else if n == 4 {
        '4'
    } else if n == 5 {
        '5'
    } else if n == 6 {
        '6'
    } else if n == 7 {
        '7'
    } else if n == 8 {
        '8'
    } else if n == 9 {
        '9'
    } else if n == 10 {
        'a'
    } else if n == 11 {
        'b'
    } else if n == 12 {
        'c'
    } else if n == 13 {
        'd'
    } else if n == 14 {
        'e'
    } else {
        'f'
    }
}

/// Lower-case hex encoding of a byte sequence: two digits per byte, high
/// nibble first.
pub open spec fn hex_of(bytes: Seq<u8>) -> Seq<char>
    decreases bytes.len(),
{
    if bytes.len() == 0 {
        Seq::empty()
    } else {
        seq![hex_digit(bytes[0] / 16), hex_digit(bytes[0] % 16)] + hex_of(bytes.drop_first())
    }
}

/// The SHA-256 digest of the text's bytes. The digest is a pure function of
/// the input, so it can be named without being written out.
pub uninterp spec fn sha256_of(data: Seq<char>) -> Seq<u8>;

/// What an internal node stores: the digest of its two children's hash
/// strings, concatenated as text, hex encoded.
pub open spec fn combine(left: Seq<char>, right: Seq<char>) -> Seq<char> {
    hex_of(sha256_of(left + right))
}

/// Relies on sha2::Sha256 through the digest traits: the 32-byte SHA-256
/// digest of the input bytes, a function of the input alone.
#[verifier::external_body]
pub(crate) fn sha256(data: &str) -> (r: Vec<u8>)
    ensures
        r@ == sha256_of(data@),
        r@.len() == 32,
{
    let mut hasher = sha2::Sha256::new();
    hasher.update(data);
    hasher.finalize().to_vec()
}

/// Relies on hex::encode: the lower-case hex string of the bytes, two digits
/// per byte, high nibble first.
#[verifier::external_body]
pub(crate) fn to_hex(bytes: &Vec<u8>) -> (r: String)
    ensures
        r@ == hex_of(bytes@),
{
    hex::encode(bytes)
}

/// Maps arbitrary text to the lower-case hex form of its SHA-256 digest.
pub fn digest_hex(data: &str) -> (r: String)
    ensures
        r@ == hex_of(sha256_of(data@)),
{
    let bytes = sha256(data);
    to_hex(&bytes)
}

} // verus!
