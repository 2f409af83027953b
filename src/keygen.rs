//! The key generation command: which settings are accepted and which files
//! a key pair is written to.

use crate::text::{ascii_bytes, push_all};
use vstd::prelude::*;
use vstd::utf8::encode_utf8;

verus! {

#[derive(Clone, Copy, Debug, PartialEq, Eq, Structural)]
pub enum Algorithm {
    Ed25519,
    Rsa,
    P256,
}

/// Settings of the key generation command. `output` is the path that the
/// file names start with; `bits` is the RSA modulus size.
pub struct KeygenArgs {
    pub output: String,
    pub algorithm: Algorithm,
    pub bits: usize,
    pub pem_public: bool,
}

#[derive(Clone, Copy, Debug, PartialEq, Eq, Structural)]
pub enum KeygenError {
    /// RSA keys must have 2048 bits or more.
    RsaBitsTooSmall,
}

/// The files of a key pair: the private key in PKCS#8 PEM, the public key
/// in OpenSSH form, and, if asked for, the public key in PEM.
pub struct KeyFiles {
    pub private_pem: Vec<u8>,
    pub public_ssh: Vec<u8>,
    pub public_pem: Option<Vec<u8>>,
}

pub const MIN_RSA_BITS: usize = 2048;

fn with_suffix(base: &[u8], suffix: &[u8]) -> (r: Vec<u8>)
    ensures
        r@ == base@ + suffix@,
{
    let mut r: Vec<u8> = Vec::new();
    push_all(&mut r, base);
    push_all(&mut r, suffix);
    r
}

/// Checks the settings of a key generation and names the files it writes:
/// `<output>.pem`, `<output>.pub` and, with `pem_public`, `<output>.pub.pem`.
/// The key material itself is made by the caller.
pub fn generate_key(a: &KeygenArgs) -> (r: Result<KeyFiles, KeygenError>)
    ensures
        a.algorithm == Algorithm::Rsa && a.bits < MIN_RSA_BITS ==> r == Err::<KeyFiles, KeygenError>(
            KeygenError::RsaBitsTooSmall,
        ),
        !(a.algorithm == Algorithm::Rsa && a.bits < MIN_RSA_BITS) ==> r is Ok,
        r is Ok ==> {
            let f = r->Ok_0;
            let base = encode_utf8(a.output@);
            &&& f.private_pem@ == base + ascii_bytes(seq!['.', 'p', 'e', 'm'])
            &&& f.public_ssh@ == base + ascii_bytes(seq!['.', 'p', 'u', 'b'])
            &&& (f.public_pem is Some <==> a.pem_public)
            &&& a.pem_public ==> f.public_pem->0@ == base + ascii_bytes(
                seq!['.', 'p', 'u', 'b', '.', 'p', 'e', 'm'],
            )
        },
{
    if a.algorithm == Algorithm::Rsa && a.bits < MIN_RSA_BITS {
        return Err(KeygenError::RsaBitsTooSmall);
    }
    let base = a.output.as_str().as_bytes();
    let pem = vec!['.' as u8, 'p' as u8, 'e' as u8, 'm' as u8];
    let publ = vec!['.' as u8, 'p' as u8, 'u' as u8, 'b' as u8];
    let pub_pem = vec!['.' as u8, 'p' as u8, 'u' as u8, 'b' as u8, '.' as u8, 'p' as u8, 'e' as u8, 'm' as u8];
    assert(pem@ =~= ascii_bytes(seq!['.', 'p', 'e', 'm']));
    assert(publ@ =~= ascii_bytes(seq!['.', 'p', 'u', 'b']));
    assert(pub_pem@ =~= ascii_bytes(seq!['.', 'p', 'u', 'b', '.', 'p', 'e', 'm']));
    let public_pem = if a.pem_public {
        Some(with_suffix(base, pub_pem.as_slice()))
    } else {
        None
    };
    Ok(
        KeyFiles {
            private_pem: with_suffix(base, pem.as_slice()),
            public_ssh: with_suffix(base, publ.as_slice()),
            public_pem,
        },
    )
}

} // verus!
