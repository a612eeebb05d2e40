//! Hashing of secrets (session tokens, agent credentials) before they are
//! stored or looked up: SHA-256 of the UTF-8 bytes, written as lowercase hex.
use vstd::prelude::*;

verus! {

/// The SHA-256 digest of `data`.
pub uninterp spec fn sha256(data: Seq<u8>) -> Seq<u8>;

/// The lowercase hexadecimal digit for `n < 16`.
pub open spec fn hex_digit(n: u8) -> char {
    if n < 10 {
        (48 + n) as char
    } else {
        (87 + n) as char
    }
}

/// Each byte as two lowercase hexadecimal digits, high nibble first.
pub open spec fn hex_lower(bytes: Seq<u8>) -> Seq<char>
    decreases bytes.len(),
{
    if bytes.len() == 0 {
        Seq::empty()
    } else {
        hex_lower(bytes.drop_last()) + seq![hex_digit(bytes.last() / 16), hex_digit(bytes.last() % 16)]
    }
}

/// The stored form of a secret.
pub open spec fn secret_hash(secret: Seq<u8>) -> Seq<char> {
    hex_lower(sha256(secret))
}

/// Calls `sha2::Sha256::digest`, which the contract takes to be the SHA-256
/// digest of the bytes, 32 bytes long (the hasher's output size).
#[verifier::external_body]
fn sha256_digest(data: &[u8]) -> (r: Vec<u8>)
    ensures
        r@ == sha256(data@),
        r@.len() == 32,
{
    <sha2::Sha256 as sha2::Digest>::digest(data).to_vec()
}

/// Calls `hex::encode`, which writes every byte as two digits from
/// `0123456789abcdef`, high nibble first.
#[verifier::external_body]
fn hex_encode(data: &[u8]) -> (r: String)
    ensures
        r@ == hex_lower(data@),
{
    hex::encode(data)
}

/// The SHA-256 of `data`, in lowercase hex.
pub fn sha256_hex(data: &[u8]) -> (r: String)
    ensures
        r@ == hex_lower(sha256(data@)),
{
    let digest = sha256_digest(data);
    hex_encode(digest.as_slice())
}

/// The SHA-256 of the secret's UTF-8 bytes, in lowercase hex.
pub fn hash_secret(secret: &str) -> (r: String)
    ensures
        r@ == secret_hash(vstd::utf8::encode_utf8(secret@)),
{
    sha256_hex(secret.as_bytes())
}

} // verus!
