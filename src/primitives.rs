//! The cryptographic, random and compression primitives this library relies on.
//! Each item here states what the outside crate does; everything built on them
//! is verified against those statements.

use crate::container::KdfCosts;
use argon2::{Algorithm, Argon2, Params, Version};
use chacha20poly1305::aead::Aead;
use chacha20poly1305::{KeyInit, XChaCha20Poly1305, XNonce};
use rand::rngs::OsRng;
use rand::TryRngCore;
use vstd::prelude::*;
use zeroize::Zeroize;

verus! {

#[verifier::external_type_specification]
#[verifier::external_body]
pub struct ExArgon2Error(argon2::Error);

#[verifier::external_type_specification]
#[verifier::external_body]
pub struct ExAeadError(chacha20poly1305::aead::Error);

#[verifier::external_type_specification]
#[verifier::external_body]
pub struct ExOsError(rand::rand_core::OsError);

#[verifier::external_type_specification]
#[verifier::external_body]
pub struct ExIoError(std::io::Error);

/// The 32-byte Argon2id (version 0x13) output for a password, salt and costs.
pub uninterp spec fn argon2id_key(
    password: Seq<u8>,
    salt: Seq<u8>,
    m_cost_kib: u32,
    t_cost: u32,
    p_cost: u32,
) -> Seq<u8>;

/// XChaCha20-Poly1305 ciphertext, tag appended, of `plaintext` under `key` and
/// `nonce`, with no associated data.
pub uninterp spec fn xchacha_seal(key: Seq<u8>, nonce: Seq<u8>, plaintext: Seq<u8>) -> Seq<u8>;

/// The single zstd frame that compresses `data` at `level`.
pub uninterp spec fn zstd_compressed(data: Seq<u8>, level: i32) -> Seq<u8>;

/// What decoding `data` as zstd frames gives, or `None` where it is not zstd.
pub uninterp spec fn zstd_decoded(data: Seq<u8>) -> Option<Seq<u8>>;

/// The cost ranges that `argon2::Params::new` accepts.
pub open spec fn argon2_costs_valid(c: KdfCosts) -> bool {
    &&& c.m_cost_kib >= 8
    &&& c.m_cost_kib as int >= 8 * c.p_cost as int
    &&& c.t_cost >= 1
    &&& 1 <= c.p_cost <= 0xFFFFFF
}

/// The longest plaintext the cipher can process: its 32-bit block counter
/// starts at block 1, which leaves `u32::MAX - 1` blocks of 64 bytes.
pub open spec fn max_sealed_plaintext() -> int {
    64 * (u32::MAX as int - 1)
}

/// A plaintext short enough for the cipher's block counter.
pub open spec fn aead_len_ok(len: int) -> bool {
    len <= max_sealed_plaintext()
}

/// `ciphertext` is what sealing `plaintext` under `key` and `nonce` gives.
pub open spec fn seals_to(key: Seq<u8>, nonce: Seq<u8>, plaintext: Seq<u8>, ciphertext: Seq<u8>) -> bool {
    &&& aead_len_ok(plaintext.len() as int)
    &&& xchacha_seal(key, nonce, plaintext) == ciphertext
}

/// Relies on `argon2::Params::new`, `Argon2::new` and
/// `Argon2::hash_password_into`: with a 32-byte output, a salt of 8 bytes or
/// more and a password that fits in `u32`, the only failure is a cost outside
/// the ranges `Params::new` checks; the output is a function of the inputs.
/// `Params::new` multiplies `p_cost` by 8, which must not overflow.
#[verifier::external_body]
pub(crate) fn argon2id_hash(password: &[u8], salt: &[u8], costs: KdfCosts) -> (r: Result<
    [u8; 32],
    argon2::Error,
>)
    requires
        password@.len() <= u32::MAX,
        8 <= salt@.len() <= u32::MAX,
        costs.p_cost as int * 8 <= u32::MAX,
    ensures
        r is Ok <==> argon2_costs_valid(costs),
        r is Ok ==> r->Ok_0@ == argon2id_key(
            password@,
            salt@,
            costs.m_cost_kib,
            costs.t_cost,
            costs.p_cost,
        ),
{
    let params = Params::new(costs.m_cost_kib, costs.t_cost, costs.p_cost, None)?;
    let mut key = [0u8; 32];
    Argon2::new(Algorithm::Argon2id, Version::V0x13, params).hash_password_into(
        password,
        salt,
        &mut key,
    )?;
    Ok(key)
}

/// Relies on `Aead::encrypt` of `XChaCha20Poly1305`: for a plaintext that
/// the block counter can cover it succeeds, and it appends a 16-byte tag.
/// Longer plaintexts can make the keystream panic, so they are excluded.
#[verifier::external_body]
pub(crate) fn xchacha_encrypt(key: &[u8; 32], nonce: &[u8], plaintext: &[u8]) -> (r: Result<
    Vec<u8>,
    chacha20poly1305::aead::Error,
>)
    requires
        nonce@.len() == 24,
        aead_len_ok(plaintext@.len() as int),
    ensures
        r is Ok,
        r->Ok_0@ == xchacha_seal(key@, nonce@, plaintext@),
        r->Ok_0@.len() == plaintext@.len() + 16,
{
    XChaCha20Poly1305::new(key.into()).encrypt(XNonce::from_slice(nonce), plaintext)
}

/// Relies on `Aead::decrypt` of `XChaCha20Poly1305`: it returns a plaintext
/// only when the tag checks, that is when sealing the plaintext gives the
/// ciphertext back; and it opens every ciphertext that sealing produced.
/// A ciphertext longer than the block counter can cover is excluded, since
/// its keystream can panic after the tag checks.
#[verifier::external_body]
pub(crate) fn xchacha_decrypt(key: &[u8; 32], nonce: &[u8], ciphertext: &[u8]) -> (r: Result<
    Vec<u8>,
    chacha20poly1305::aead::Error,
>)
    requires
        nonce@.len() == 24,
        ciphertext@.len() <= max_sealed_plaintext() + 16,
    ensures
        r is Ok ==> seals_to(key@, nonce@, r->Ok_0@, ciphertext@),
        forall|p: Seq<u8>|
            #[trigger] seals_to(key@, nonce@, p, ciphertext@) ==> (r is Ok && r->Ok_0@ == p),
{
    XChaCha20Poly1305::new(key.into()).decrypt(XNonce::from_slice(nonce), ciphertext)
}

/// Relies on `TryRngCore::try_fill_bytes` of `OsRng`: it overwrites the
/// buffer in place with bytes from the operating system.
#[verifier::external_body]
pub(crate) fn os_fill(buf: &mut Vec<u8>) -> (r: Result<(), rand::rand_core::OsError>)
    ensures
        final(buf)@.len() == old(buf)@.len(),
{
    OsRng.try_fill_bytes(buf.as_mut_slice())
}

/// Relies on `zstd::encode_all`: the output is one zstd frame of the input
/// at the given level. Reading from a slice and writing to a `Vec` cannot
/// fail, and libzstd clamps the level into its range, so what is left are
/// failures to allocate its working memory, which this library leaves
/// outside its contracts as it does for its own allocations.
#[verifier::external_body]
pub(crate) fn zstd_encode(data: &[u8], level: i32) -> (r: Result<Vec<u8>, std::io::Error>)
    ensures
        r is Ok,
        r->Ok_0@ == zstd_compressed(data@, level),
{
    zstd::encode_all(data, level)
}

/// Relies on `zstd::decode_all`: the output depends on the input alone, and
/// a frame written by `zstd::encode_all` decodes to what was encoded.
#[verifier::external_body]
pub(crate) fn zstd_decode(data: &[u8]) -> (r: Result<Vec<u8>, std::io::Error>)
    ensures
        r is Ok <==> zstd_decoded(data@) is Some,
        r is Ok ==> r->Ok_0@ == zstd_decoded(data@)->0,
        forall|x: Seq<u8>, level: i32|
            #[trigger] zstd_compressed(x, level) == data@ ==> (r is Ok && r->Ok_0@ == x),
{
    zstd::decode_all(data)
}

/// Relies on `Zeroize for Vec<u8>`: the bytes are overwritten with zeros and
/// the vector is cleared.
#[verifier::external_body]
pub(crate) fn wipe_bytes(buf: &mut Vec<u8>)
    ensures
        final(buf)@.len() == 0,
{
    buf.zeroize()
}

/// Relies on `Zeroize for [u8; 32]`: every byte is overwritten with zero.
#[verifier::external_body]
pub(crate) fn wipe_key(key: &mut [u8; 32])
    ensures
        forall|i: int| 0 <= i < 32 ==> final(key)@[i] == 0u8,
{
    key.zeroize()
}

} // verus!
