//! Hashing, hexadecimal encoding and constant-time comparison of keys,
//! and the generation of random API keys.

use vstd::prelude::*;

use rand::RngCore;
use sha2::{Digest, Sha256};
use subtle::ConstantTimeEq;

use crate::types::hex_lower_digit;
use vstd::utf8::encode_utf8;

verus! {

/// The SHA-256 digest of `data`.
pub uninterp spec fn sha256(data: Seq<u8>) -> Seq<u8>;

/// Hashes `data` with `sha2::Sha256`.
#[verifier::external_body]
pub(crate) fn sha256_digest(data: &[u8]) -> (r: [u8; 32])
    ensures
        r@ == sha256(data@),
{
    Sha256::digest(data).into()
}

/// The lower-case hexadecimal text of `b`, two digits per byte.
pub open spec fn hex_text(b: Seq<u8>) -> Seq<char>
    decreases b.len(),
{
    if b.len() == 0 {
        Seq::empty()
    } else {
        hex_text(b.drop_last()) + seq![hex_lower_digit((b.last() / 16) as nat), hex_lower_digit((b.last() % 16) as nat)]
    }
}

/// Encodes bytes as lower-case hexadecimal with `hex::encode`.
#[verifier::external_body]
pub(crate) fn hex_encode(data: &[u8]) -> (r: String)
    ensures
        r@ == hex_text(data@),
{
    hex::encode(data)
}

/// The value of a hexadecimal digit byte (`0-9`, `a-f`, `A-F`).
pub open spec fn hex_digit_value(c: u8) -> Option<u8> {
    if 48 <= c <= 57 {
        Some((c - 48) as u8)
    } else if 97 <= c <= 102 {
        Some((c - 87) as u8)
    } else if 65 <= c <= 70 {
        Some((c - 55) as u8)
    } else {
        None
    }
}

/// Whether `b` is an even number of hexadecimal digit bytes.
pub open spec fn hex_decodable(b: Seq<u8>) -> bool {
    b.len() % 2 == 0 && forall|i: int| 0 <= i < b.len() ==> (#[trigger] hex_digit_value(b[i])) is Some
}

/// The bytes that pairs of hexadecimal digits denote.
pub open spec fn hex_value(b: Seq<u8>) -> Seq<u8> {
    Seq::new(
        b.len() / 2,
        |i: int| (hex_digit_value(b[2 * i]).unwrap() * 16 + hex_digit_value(b[2 * i + 1]).unwrap()) as u8,
    )
}

/// Decodes hexadecimal text with `hex::decode`: the bytes when the text
/// is an even number of hexadecimal digits, else nothing.
#[verifier::external_body]
pub(crate) fn hex_decode(text: &[u8]) -> (r: Option<Vec<u8>>)
    ensures
        r is Some <==> hex_decodable(text@),
        r matches Some(v) ==> v@ == hex_value(text@),
{
    match hex::decode(text) {
        Ok(v) => Some(v),
        Err(_) => None,
    }
}

/// Compares two byte strings with `subtle::ConstantTimeEq`: equal
/// exactly when they have the same length and the same bytes.
#[verifier::external_body]
pub(crate) fn ct_eq(a: &[u8], b: &[u8]) -> (r: bool)
    ensures
        r == (a@ == b@),
{
    a.ct_eq(b).into()
}

/// Fills 32 bytes from the operating system's random source
/// (`rand::rngs::OsRng`). Nothing is promised of the bytes.
#[verifier::external_body]
fn random_bytes_32() -> [u8; 32] {
    let mut bytes = [0u8; 32];
    rand::rngs::OsRng.fill_bytes(&mut bytes);
    bytes
}

/// The SHA-256 digest of `bytes` in lower-case hexadecimal (64
/// characters), the form configuration files hold key hashes in.
pub fn sha256_hex(bytes: &[u8]) -> (r: String)
    ensures
        r@ == hex_text(sha256(bytes@)),
{
    let digest = sha256_digest(bytes);
    hex_encode(&digest)
}

/// A new random API key: 32 random bytes in lower-case hexadecimal.
pub fn generate_api_key_plaintext() -> (r: String)
    ensures
        exists|b: Seq<u8>| b.len() == 32 && r@ == hex_text(b),
{
    let bytes = random_bytes_32();
    let r = hex_encode(&bytes);
    assert(bytes@.len() == 32 && r@ == hex_text(bytes@));
    r
}

/// The first four hexadecimal characters (two bytes) of the SHA-256
/// digest of `key`: enough to tell keys apart in a log without
/// revealing them.
pub fn key_hash_prefix(key: &str) -> (r: String)
    ensures
        r@ == hex_text(sha256(encode_utf8(key@)).subrange(0, 2)),
{
    let digest = sha256_digest(key.as_bytes());
    let prefix = vstd::slice::slice_subrange(digest.as_slice(), 0, 2);
    hex_encode(prefix)
}

} // verus!
