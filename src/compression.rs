//! Naming rules of the compression commands: which algorithm a file
//! extension or a leading magic number stands for, and output names.

use crate::text::{ascii_bytes, bytes_eq, push_all};
use vstd::prelude::*;

verus! {

/// Settings of the compress command.
pub struct CompressionArgs {
    pub input: String,
    pub recursive: bool,
    pub algorithm: Algorithm,
    pub compression_level: u32,
    pub output: Option<String>,
    pub threads: Option<u32>,
}

/// Settings of the decompress command; with no algorithm it is detected.
pub struct DecompressionArgs {
    pub input: String,
    pub recursive: bool,
    pub algorithm: Option<Algorithm>,
    pub output: Option<String>,
}

#[derive(Clone, Copy, Debug, PartialEq, Eq, Structural)]
pub enum Algorithm {
    Zstd,
    Lz4,
    Brotli,
    Snappy,
}

impl Algorithm {
    pub open spec fn spec_extension(self) -> Seq<char> {
        match self {
            Algorithm::Zstd => seq!['z', 's', 't'],
            Algorithm::Lz4 => seq!['l', 'z', '4'],
            Algorithm::Brotli => seq!['b', 'r'],
            Algorithm::Snappy => seq!['s', 'z'],
        }
    }

    /// The file extension of the algorithm's output, without the dot.
    pub fn extension(self) -> (r: &'static str)
        ensures
            r@ == self.spec_extension(),
    {
        proof {
            reveal_strlit("zst");
            reveal_strlit("lz4");
            reveal_strlit("br");
            reveal_strlit("sz");
        }
        match self {
            Algorithm::Zstd => "zst",
            Algorithm::Lz4 => "lz4",
            Algorithm::Brotli => "br",
            Algorithm::Snappy => "sz",
        }
    }

    /// The bytes of `extension()`.
    pub fn extension_bytes(self) -> (r: Vec<u8>)
        ensures
            r@ == ascii_bytes(self.spec_extension()),
    {
        let r = match self {
            Algorithm::Zstd => vec!['z' as u8, 's' as u8, 't' as u8],
            Algorithm::Lz4 => vec!['l' as u8, 'z' as u8, '4' as u8],
            Algorithm::Brotli => vec!['b' as u8, 'r' as u8],
            Algorithm::Snappy => vec!['s' as u8, 'z' as u8],
        };
        assert(r@ =~= ascii_bytes(self.spec_extension()));
        r
    }
}

/// The algorithm whose extension is `ext`.
pub open spec fn algorithm_for_extension(ext: Seq<u8>) -> Option<Algorithm> {
    if ext == ascii_bytes(Algorithm::Zstd.spec_extension()) {
        Some(Algorithm::Zstd)
    } else if ext == ascii_bytes(Algorithm::Lz4.spec_extension()) {
        Some(Algorithm::Lz4)
    } else if ext == ascii_bytes(Algorithm::Brotli.spec_extension()) {
        Some(Algorithm::Brotli)
    } else if ext == ascii_bytes(Algorithm::Snappy.spec_extension()) {
        Some(Algorithm::Snappy)
    } else {
        None
    }
}

/// The algorithm whose frame starts with the four bytes of `head`, if `head`
/// holds four bytes or more.
pub open spec fn algorithm_for_magic(head: Seq<u8>) -> Option<Algorithm> {
    if head.len() < 4 {
        None
    } else {
        let m = head.subrange(0, 4);
        if m == seq![0x28u8, 0xB5u8, 0x2Fu8, 0xFDu8] {
            Some(Algorithm::Zstd)
        } else if m == seq![0x04u8, 0x22u8, 0x4Du8, 0x18u8] {
            Some(Algorithm::Lz4)
        } else if m == seq![0x73u8, 0x4Eu8, 0x61u8, 0x50u8] {
            Some(Algorithm::Snappy)
        } else {
            None
        }
    }
}

/// "." followed by the algorithm's extension.
pub open spec fn dotted(alg: Algorithm) -> Seq<u8> {
    seq!['.' as u8] + ascii_bytes(alg.spec_extension())
}

/// `name` without the algorithm's dotted extension at its end, if it has it.
pub open spec fn without_suffix(name: Seq<u8>, alg: Algorithm) -> Seq<u8> {
    let sfx = dotted(alg);
    if name.len() >= sfx.len() && name.subrange(name.len() - sfx.len(), name.len() as int) == sfx {
        name.subrange(0, name.len() - sfx.len())
    } else {
        name
    }
}

/// The name a decompressed file gets: the input's name without the
/// algorithm's extension, or with ".out" added where it has none.
pub open spec fn decompressed_name_of(name: Seq<u8>, alg: Algorithm) -> Seq<u8> {
    if without_suffix(name, alg) == name {
        name + seq!['.' as u8, 'o' as u8, 'u' as u8, 't' as u8]
    } else {
        without_suffix(name, alg)
    }
}

/// The algorithm named by a file extension.
pub fn check_extension(ext: &[u8]) -> (r: Option<Algorithm>)
    ensures
        r == algorithm_for_extension(ext@),
{
    if bytes_eq(ext, Algorithm::Zstd.extension_bytes().as_slice()) {
        Some(Algorithm::Zstd)
    } else if bytes_eq(ext, Algorithm::Lz4.extension_bytes().as_slice()) {
        Some(Algorithm::Lz4)
    } else if bytes_eq(ext, Algorithm::Brotli.extension_bytes().as_slice()) {
        Some(Algorithm::Brotli)
    } else if bytes_eq(ext, Algorithm::Snappy.extension_bytes().as_slice()) {
        Some(Algorithm::Snappy)
    } else {
        None
    }
}

/// The algorithm recognised from the first bytes of a file. Brotli has no
/// magic number and is never recognised this way.
pub fn sniff_magic(head: &[u8]) -> (r: Option<Algorithm>)
    ensures
        r == algorithm_for_magic(head@),
{
    if head.len() < 4 {
        return None;
    }
    let m = &head[0..4];
    if bytes_eq(m, vec![0x28u8, 0xB5u8, 0x2Fu8, 0xFDu8].as_slice()) {
        Some(Algorithm::Zstd)
    } else if bytes_eq(m, vec![0x04u8, 0x22u8, 0x4Du8, 0x18u8].as_slice()) {
        Some(Algorithm::Lz4)
    } else if bytes_eq(m, vec![0x73u8, 0x4Eu8, 0x61u8, 0x50u8].as_slice()) {
        Some(Algorithm::Snappy)
    } else {
        None
    }
}

/// Which algorithm decompresses a file: the one asked for, else the one its
/// magic number shows, else the one its extension names.
pub fn detect_algorithm(requested: Option<Algorithm>, head: &[u8], ext: &[u8]) -> (r: Option<
    Algorithm,
>)
    ensures
        r == (if requested is Some {
            requested
        } else if algorithm_for_magic(head@) is Some {
            algorithm_for_magic(head@)
        } else {
            algorithm_for_extension(ext@)
        }),
{
    match requested {
        Some(a) => Some(a),
        None => match sniff_magic(head) {
            Some(a) => Some(a),
            None => check_extension(ext),
        },
    }
}

fn dotted_extension(alg: Algorithm) -> (r: Vec<u8>)
    ensures
        r@ == dotted(alg),
{
    let mut r: Vec<u8> = vec!['.' as u8];
    let e = alg.extension_bytes();
    push_all(&mut r, e.as_slice());
    r
}

/// `name` without the algorithm's dotted extension at its end, if it has it.
pub fn strip_suffix(name: &[u8], alg: Algorithm) -> (r: Vec<u8>)
    ensures
        r@ == without_suffix(name@, alg),
{
    let sfx = dotted_extension(alg);
    let mut r: Vec<u8> = Vec::new();
    if name.len() >= sfx.len() && bytes_eq(&name[name.len() - sfx.len()..name.len()], sfx.as_slice()) {
        push_all(&mut r, &name[0..name.len() - sfx.len()]);
    } else {
        push_all(&mut r, name);
    }
    r
}

/// The name of a compressed file: the input's name and the algorithm's
/// dotted extension.
pub fn compressed_name(name: &[u8], alg: Algorithm) -> (r: Vec<u8>)
    ensures
        r@ == name@ + dotted(alg),
{
    let mut r: Vec<u8> = Vec::new();
    push_all(&mut r, name);
    let sfx = dotted_extension(alg);
    push_all(&mut r, sfx.as_slice());
    r
}

/// The name a decompressed file gets when no output is named.
pub fn decompressed_name(name: &[u8], alg: Algorithm) -> (r: Vec<u8>)
    ensures
        r@ == decompressed_name_of(name@, alg),
{
    let mut r = strip_suffix(name, alg);
    if bytes_eq(r.as_slice(), name) {
        let out = vec!['.' as u8, 'o' as u8, 'u' as u8, 't' as u8];
        push_all(&mut r, out.as_slice());
    }
    r
}

} // verus!
