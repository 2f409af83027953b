//! Errors of encryption and decryption.

use crate::container::FormatError;
use vstd::prelude::*;

verus! {

/// A setting that cannot be used.
#[derive(Clone, Copy, Debug, PartialEq, Eq, Structural)]
pub enum ConfigError {
    /// Argon2 costs outside the ranges the key derivation accepts.
    InvalidCosts,
    /// A file extension or directory name longer than 65535 bytes.
    NameTooLong,
}

#[derive(Clone, Copy, Debug, PartialEq, Eq, Structural)]
pub enum CryptError {
    Format(FormatError),
    Config(ConfigError),
    /// Compressing a directory archive failed for want of memory.
    Io,
    /// The random source or the cipher failed.
    Crypto,
    /// The tag did not check: a wrong password or a damaged ciphertext.
    Authentication,
}

} // verus!
