//! Password-based encryption containers for files and directory trees,
//! together with the small pure helpers of the surrounding command-line tools.

pub mod compression;
pub mod container;
pub mod crypt;
pub mod digests;
pub mod error;
pub mod format;
pub mod hash;
pub mod image;
pub mod keygen;
pub mod payload;
pub mod primitives;
pub mod steganography;
pub mod text;
