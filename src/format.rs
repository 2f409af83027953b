//! Formats of the data conversion command and how file extensions name them.

use crate::text::{ascii_bytes, bytes_eq, lower_text, to_lower};
use vstd::prelude::*;

verus! {

#[derive(Clone, Copy, Debug, PartialEq, Eq, Structural)]
pub enum Format {
    Json,
    Bson,
    Bincode,
}

/// Settings of the conversion command.
pub struct FormatArgs {
    pub input: String,
    pub format: Format,
    pub output: Option<String>,
}

impl Format {
    pub open spec fn spec_name(self) -> Seq<char> {
        match self {
            Format::Json => seq!['J', 'S', 'O', 'N'],
            Format::Bson => seq!['B', 'S', 'O', 'N'],
            Format::Bincode => seq!['B', 'I', 'N', 'C', 'O', 'D', 'E'],
        }
    }

    pub open spec fn spec_default_extension(self) -> Seq<char> {
        match self {
            Format::Json => seq!['j', 's', 'o', 'n'],
            Format::Bson => seq!['b', 's', 'o', 'n'],
            Format::Bincode => seq!['b', 'i', 'n'],
        }
    }

    /// The upper-case name shown in messages.
    pub fn name(self) -> (r: &'static str)
        ensures
            r@ == self.spec_name(),
    {
        proof {
            reveal_strlit("JSON");
            reveal_strlit("BSON");
            reveal_strlit("BINCODE");
        }
        match self {
            Format::Json => "JSON",
            Format::Bson => "BSON",
            Format::Bincode => "BINCODE",
        }
    }

    /// The extension given to converted files.
    pub fn default_extension(self) -> (r: &'static str)
        ensures
            r@ == self.spec_default_extension(),
    {
        proof {
            reveal_strlit("json");
            reveal_strlit("bson");
            reveal_strlit("bin");
        }
        match self {
            Format::Json => "json",
            Format::Bson => "bson",
            Format::Bincode => "bin",
        }
    }

    /// The format that a file extension names, in any case: "json", "bson",
    /// and "bin" or "bincode".
    pub open spec fn spec_from_extension(ext: Seq<u8>) -> Option<Format> {
        let t = lower_text(ext);
        if t == ascii_bytes(seq!['j', 's', 'o', 'n']) {
            Some(Format::Json)
        } else if t == ascii_bytes(seq!['b', 's', 'o', 'n']) {
            Some(Format::Bson)
        } else if t == ascii_bytes(seq!['b', 'i', 'n']) || t == ascii_bytes(
            seq!['b', 'i', 'n', 'c', 'o', 'd', 'e'],
        ) {
            Some(Format::Bincode)
        } else {
            None
        }
    }

    pub fn from_extension(ext: &[u8]) -> (r: Option<Format>)
        ensures
            r == Format::spec_from_extension(ext@),
    {
        let t = to_lower(ext);
        let json = vec!['j' as u8, 's' as u8, 'o' as u8, 'n' as u8];
        let bson = vec!['b' as u8, 's' as u8, 'o' as u8, 'n' as u8];
        let bin = vec!['b' as u8, 'i' as u8, 'n' as u8];
        let bincode = vec!['b' as u8, 'i' as u8, 'n' as u8, 'c' as u8, 'o' as u8, 'd' as u8, 'e' as u8];
        assert(json@ =~= ascii_bytes(seq!['j', 's', 'o', 'n']));
        assert(bson@ =~= ascii_bytes(seq!['b', 's', 'o', 'n']));
        assert(bin@ =~= ascii_bytes(seq!['b', 'i', 'n']));
        assert(bincode@ =~= ascii_bytes(seq!['b', 'i', 'n', 'c', 'o', 'd', 'e']));
        if bytes_eq(t.as_slice(), json.as_slice()) {
            Some(Format::Json)
        } else if bytes_eq(t.as_slice(), bson.as_slice()) {
            Some(Format::Bson)
        } else if bytes_eq(t.as_slice(), bin.as_slice()) || bytes_eq(t.as_slice(), bincode.as_slice()) {
            Some(Format::Bincode)
        } else {
            None
        }
    }
}

} // verus!
