//! The digest and checksum functions that the hashing commands rely on, and
//! the text forms of their results.

use vstd::prelude::*;

verus! {

/// The BLAKE3 hash, 32 bytes, of `data`.
pub uninterp spec fn blake3_digest(data: Seq<u8>) -> Seq<u8>;

/// The MD5 digest, 16 bytes, of `data`.
pub uninterp spec fn md5_digest(data: Seq<u8>) -> Seq<u8>;

/// The SHA-1 digest, 20 bytes, of `data`.
pub uninterp spec fn sha1_digest(data: Seq<u8>) -> Seq<u8>;

/// The SHA-256 digest, 32 bytes, of `data`.
pub uninterp spec fn sha256_digest(data: Seq<u8>) -> Seq<u8>;

/// The CRC-32 (IEEE) checksum of `data`.
pub uninterp spec fn crc32_checksum(data: Seq<u8>) -> u32;

/// The CRC-32C (Castagnoli) checksum of `data`.
pub uninterp spec fn crc32c_checksum(data: Seq<u8>) -> u32;

/// The upper-case hexadecimal digit for a value below 16.
pub open spec fn hex_digit_upper(v: int) -> char {
    if v < 10 {
        (v + 48) as char
    } else {
        (v + 55) as char
    }
}

/// Two upper-case hexadecimal digits for each byte, most significant first.
pub open spec fn upper_hex(b: Seq<u8>) -> Seq<char>
    decreases b.len(),
{
    if b.len() == 0 {
        Seq::empty()
    } else {
        upper_hex(b.drop_last()) + seq![
            hex_digit_upper(b.last() as int / 16),
            hex_digit_upper(b.last() as int % 16),
        ]
    }
}

/// The low `n` hexadecimal digits of `v`, upper case, most significant first.
pub open spec fn hex_digits(v: int, n: nat) -> Seq<char>
    decreases n,
{
    if n == 0 {
        Seq::empty()
    } else {
        hex_digits(v / 16, (n - 1) as nat).push(hex_digit_upper(v % 16))
    }
}

/// The decimal digits of `v`, with no leading zero.
pub open spec fn decimal_digits(v: nat) -> Seq<char>
    decreases v,
{
    if v < 10 {
        seq![(v + 48) as char]
    } else {
        decimal_digits(v / 10).push(((v % 10) + 48) as char)
    }
}

/// Two digits per byte.
pub proof fn lemma_upper_hex_len(b: Seq<u8>)
    ensures
        upper_hex(b).len() == 2 * b.len(),
    decreases b.len(),
{
    if b.len() > 0 {
        lemma_upper_hex_len(b.drop_last());
    }
}

/// `n` digits.
pub proof fn lemma_hex_digits_len(v: int, n: nat)
    ensures
        hex_digits(v, n).len() == n,
    decreases n,
{
    if n > 0 {
        lemma_hex_digits_len(v / 16, (n - 1) as nat);
    }
}

/// Relies on `blake3::hash`.
#[verifier::external_body]
pub(crate) fn blake3_hash(data: &[u8]) -> (r: [u8; 32])
    ensures
        r@ == blake3_digest(data@),
{
    *blake3::hash(data).as_bytes()
}

/// Relies on `Digest::digest` of `md5::Md5`: a 16-byte digest.
#[verifier::external_body]
pub(crate) fn md5_hash(data: &[u8]) -> (r: Vec<u8>)
    ensures
        r@ == md5_digest(data@),
        r@.len() == 16,
{
    <md5::Md5 as md5::Digest>::digest(data).to_vec()
}

/// Relies on `Digest::digest` of `sha1::Sha1`: a 20-byte digest.
#[verifier::external_body]
pub(crate) fn sha1_hash(data: &[u8]) -> (r: Vec<u8>)
    ensures
        r@ == sha1_digest(data@),
        r@.len() == 20,
{
    <sha1::Sha1 as sha1::Digest>::digest(data).to_vec()
}

/// Relies on `Digest::digest` of `sha2::Sha256`: a 32-byte digest.
#[verifier::external_body]
pub(crate) fn sha256_hash(data: &[u8]) -> (r: Vec<u8>)
    ensures
        r@ == sha256_digest(data@),
        r@.len() == 32,
{
    <sha2::Sha256 as sha2::Digest>::digest(data).to_vec()
}

/// Relies on `crc32fast::hash`.
#[verifier::external_body]
pub(crate) fn crc32_hash(data: &[u8]) -> (r: u32)
    ensures
        r == crc32_checksum(data@),
{
    crc32fast::hash(data)
}

/// Relies on `crc32c::crc32c`.
#[verifier::external_body]
pub(crate) fn crc32c_hash(data: &[u8]) -> (r: u32)
    ensures
        r == crc32c_checksum(data@),
{
    crc32c::crc32c(data)
}

/// Relies on `hex::encode_upper`: two upper-case digits per byte.
#[verifier::external_body]
pub(crate) fn encode_upper(data: &[u8]) -> (r: String)
    ensures
        r@ == upper_hex(data@),
{
    hex::encode_upper(data)
}

/// Relies on std's `{:08X}` formatting of a `u32`.
#[verifier::external_body]
pub(crate) fn hex8(v: u32) -> (r: String)
    ensures
        r@ == hex_digits(v as int, 8),
{
    format!("{:08X}", v)
}

/// Relies on std's `ToString` for `u32`: decimal digits, no leading zero.
#[verifier::external_body]
pub(crate) fn decimal(v: u32) -> (r: String)
    ensures
        r@ == decimal_digits(v as nat),
{
    v.to_string()
}

} // verus!
