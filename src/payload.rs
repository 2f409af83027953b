//! The plaintext that gets sealed: a file with its extension, or a directory
//! archive with its base name, behind a kind byte and a length-prefixed label.

use crate::container::{FormatError, CURRENT_VERSION, LEGACY_VERSION};
use crate::error::{ConfigError, CryptError};
use crate::primitives::{zstd_compressed, zstd_decode, zstd_decoded, zstd_encode};
use crate::text::{copy_range, push_all};
use vstd::bytes::*;
use vstd::prelude::*;

verus! {

/// Longest extension or directory name that a 16-bit length can describe.
pub const MAX_LABEL_LEN: usize = 65535;

pub const KIND_FILE: u8 = 0;

pub const KIND_DIRECTORY: u8 = 1;

/// zstd level used for directory archives.
pub const ARCHIVE_LEVEL: i32 = 10;

/// What a container holds once opened.
pub enum Payload {
    /// A single file: its extension without the dot, and its bytes.
    File { extension: Vec<u8>, data: Vec<u8> },
    /// A directory: its base name, and an uncompressed tar archive of it.
    Directory { name: Vec<u8>, archive: Vec<u8> },
}

pub ghost enum PayloadView {
    File { extension: Seq<u8>, data: Seq<u8> },
    Directory { name: Seq<u8>, archive: Seq<u8> },
}

impl View for Payload {
    type V = PayloadView;

    open spec fn view(&self) -> PayloadView {
        match self {
            Payload::File { extension, data } => PayloadView::File {
                extension: extension@,
                data: data@,
            },
            Payload::Directory { name, archive } => PayloadView::Directory {
                name: name@,
                archive: archive@,
            },
        }
    }
}

pub open spec fn unpack_view(r: Result<Payload, FormatError>) -> Result<PayloadView, FormatError> {
    match r {
        Ok(p) => Ok(p@),
        Err(e) => Err(e),
    }
}

/// The extension of a file, the name of a directory.
pub open spec fn label(p: PayloadView) -> Seq<u8> {
    match p {
        PayloadView::File { extension, .. } => extension,
        PayloadView::Directory { name, .. } => name,
    }
}

pub open spec fn payload_fits(p: PayloadView) -> bool {
    label(p).len() <= MAX_LABEL_LEN
}

pub open spec fn length_prefixed(field: Seq<u8>) -> Seq<u8> {
    spec_u16_to_le_bytes(field.len() as u16) + field
}

/// The plaintext of the current layout.
pub open spec fn packed(p: PayloadView) -> Seq<u8> {
    match p {
        PayloadView::File { extension, data } => seq![KIND_FILE] + length_prefixed(extension)
            + data,
        PayloadView::Directory { name, archive } => seq![KIND_DIRECTORY] + length_prefixed(name)
            + zstd_compressed(archive, ARCHIVE_LEVEL),
    }
}

/// The plaintext of the legacy layout: a file, with no kind byte.
pub open spec fn legacy_packed(extension: Seq<u8>, data: Seq<u8>) -> Seq<u8> {
    length_prefixed(extension) + data
}

/// Splits a plaintext into kind, label and body. Every shortfall is
/// `Truncated`; a kind byte other than file or directory is refused, as
/// `UnknownKind`, only once the whole label is there.
pub open spec fn frame(version: u8, b: Seq<u8>) -> Result<(u8, Seq<u8>, Seq<u8>), FormatError> {
    let start: int = if version == LEGACY_VERSION {
        0
    } else {
        1
    };
    if b.len() < start + 2 {
        Err(FormatError::Truncated)
    } else {
        let n = spec_u16_from_le_bytes(b.subrange(start, start + 2)) as int;
        let kind = if start == 1 {
            b[0]
        } else {
            KIND_FILE
        };
        if b.len() < start + 2 + n {
            Err(FormatError::Truncated)
        } else if kind > KIND_DIRECTORY {
            Err(FormatError::UnknownKind(kind))
        } else {
            Ok((kind, b.subrange(start + 2, start + 2 + n), b.subrange(start + 2 + n, b.len() as int)))
        }
    }
}

/// The payload of a plaintext, given what its body decompresses to.
pub open spec fn unpack_with(version: u8, b: Seq<u8>, decoded: Option<Seq<u8>>) -> Result<
    PayloadView,
    FormatError,
> {
    match frame(version, b) {
        Err(e) => Err(e),
        Ok((kind, lbl, body)) => if kind == KIND_FILE {
            Ok(PayloadView::File { extension: lbl, data: body })
        } else {
            match decoded {
                Some(a) => Ok(PayloadView::Directory { name: lbl, archive: a }),
                None => Err(FormatError::BadArchive),
            }
        },
    }
}

/// `decoded` is what zstd gives for `data`; a frame that compressed `x`
/// gives `x`.
pub open spec fn decodes_as(data: Seq<u8>, decoded: Option<Seq<u8>>) -> bool {
    &&& decoded == zstd_decoded(data)
    &&& forall|x: Seq<u8>, level: i32|
        #[trigger] zstd_compressed(x, level) == data ==> decoded == Some(x)
}

/// Unpacking the plaintext `b` of a container of `version` gives `r`.
pub open spec fn unpacks_to(version: u8, b: Seq<u8>, r: Result<PayloadView, FormatError>) -> bool {
    match frame(version, b) {
        Ok((kind, lbl, body)) => if kind == KIND_DIRECTORY {
            exists|d: Option<Seq<u8>>| decodes_as(body, d) && r == unpack_with(version, b, d)
        } else {
            r == unpack_with(version, b, None)
        },
        Err(e) => r == Err::<PayloadView, FormatError>(e),
    }
}

fn push_label(out: &mut Vec<u8>, field: &[u8])
    requires
        field@.len() <= MAX_LABEL_LEN,
    ensures
        final(out)@ == old(out)@ + length_prefixed(field@),
{
    let len = u16_to_le_bytes(field.len() as u16);
    push_all(out, len.as_slice());
    push_all(out, field);
    assert(final(out)@ =~= old(out)@ + length_prefixed(field@));
}

/// Builds the plaintext for `p`, compressing a directory archive.
pub fn pack_payload(p: &Payload) -> (r: Result<Vec<u8>, CryptError>)
    ensures
        !payload_fits(p@) ==> r == Err::<Vec<u8>, CryptError>(
            CryptError::Config(ConfigError::NameTooLong),
        ),
        payload_fits(p@) ==> r is Ok && r->Ok_0@ == packed(p@),
{
    match p {
        Payload::File { extension, data } => {
            if extension.len() > MAX_LABEL_LEN {
                return Err(CryptError::Config(ConfigError::NameTooLong));
            }
            let mut out: Vec<u8> = Vec::new();
            out.push(KIND_FILE);
            push_label(&mut out, extension.as_slice());
            push_all(&mut out, data.as_slice());
            assert(out@ =~= packed(p@));
            Ok(out)
        },
        Payload::Directory { name, archive } => {
            if name.len() > MAX_LABEL_LEN {
                return Err(CryptError::Config(ConfigError::NameTooLong));
            }
            let compressed = match zstd_encode(archive.as_slice(), ARCHIVE_LEVEL) {
                Ok(c) => c,
                Err(_) => {
                    return Err(CryptError::Io);
                },
            };
            let mut out: Vec<u8> = Vec::new();
            out.push(KIND_DIRECTORY);
            push_label(&mut out, name.as_slice());
            push_all(&mut out, compressed.as_slice());
            assert(out@ =~= packed(p@));
            Ok(out)
        },
    }
}

/// Reads the plaintext of a container of `version` back into a payload.
pub fn unpack_payload(version: u8, b: &[u8]) -> (r: Result<Payload, FormatError>)
    ensures
        unpacks_to(version, b@, unpack_view(r)),
{
    let start: usize = if version == LEGACY_VERSION {
        0
    } else {
        1
    };
    if b.len() < start + 2 {
        return Err(FormatError::Truncated);
    }
    let n = u16_from_le_bytes(&b[start..start + 2]) as usize;
    let kind = if start == 1 {
        b[0]
    } else {
        KIND_FILE
    };
    if b.len() - (start + 2) < n {
        return Err(FormatError::Truncated);
    }
    if kind > KIND_DIRECTORY {
        return Err(FormatError::UnknownKind(kind));
    }
    let lbl = copy_range(b, start + 2, start + 2 + n);
    let body = &b[start + 2 + n..b.len()];
    assert(frame(version, b@) == Ok::<(u8, Seq<u8>, Seq<u8>), FormatError>((kind, lbl@, body@)));
    if kind == KIND_FILE {
        let data = copy_range(b, start + 2 + n, b.len());
        let r = Payload::File { extension: lbl, data };
        assert(unpack_view(Ok(r)) == unpack_with(version, b@, None));
        Ok(r)
    } else {
        match zstd_decode(body) {
            Ok(archive) => {
                let r = Payload::Directory { name: lbl, archive };
                assert(decodes_as(body@, Some(archive@)));
                assert(unpack_view(Ok(r)) == unpack_with(version, b@, Some(archive@)));
                Ok(r)
            },
            Err(_) => {
                assert(decodes_as(body@, None));
                assert(unpack_view(Err(FormatError::BadArchive)) == unpack_with(version, b@, None));
                Err(FormatError::BadArchive)
            },
        }
    }
}

/// Unpacking what `pack_payload` built gives the payload back.
pub proof fn lemma_unpack_packed(p: PayloadView, r: Result<PayloadView, FormatError>)
    requires
        payload_fits(p),
        unpacks_to(CURRENT_VERSION, packed(p), r),
    ensures
        r == Ok::<PayloadView, FormatError>(p),
{
    lemma_auto_spec_u16_to_from_le_bytes();
    let b = packed(p);
    let lbl = label(p);
    let n = lbl.len() as u16;
    assert(b.subrange(1, 3) =~= spec_u16_to_le_bytes(n));
    assert(spec_u16_from_le_bytes(b.subrange(1, 3)) as int == lbl.len());
    assert(b.subrange(3, 3 + lbl.len() as int) =~= lbl);
    match p {
        PayloadView::File { extension, data } => {
            assert(b.subrange(3 + lbl.len() as int, b.len() as int) =~= data);
        },
        PayloadView::Directory { name, archive } => {
            let body = zstd_compressed(archive, ARCHIVE_LEVEL);
            assert(b.subrange(3 + lbl.len() as int, b.len() as int) =~= body);
            let d = choose|d: Option<Seq<u8>>|
                decodes_as(body, d) && r == unpack_with(CURRENT_VERSION, b, d);
            assert(zstd_compressed(archive, ARCHIVE_LEVEL) == body);
            assert(d == Some(archive));
        },
    }
}

/// A legacy plaintext, a length-prefixed extension and the file bytes with
/// no kind byte, unpacks to that file.
pub proof fn lemma_unpack_legacy(
    extension: Seq<u8>,
    data: Seq<u8>,
    r: Result<PayloadView, FormatError>,
)
    requires
        extension.len() <= MAX_LABEL_LEN,
        unpacks_to(LEGACY_VERSION, legacy_packed(extension, data), r),
    ensures
        r == Ok::<PayloadView, FormatError>(PayloadView::File { extension, data }),
{
    lemma_auto_spec_u16_to_from_le_bytes();
    let b = legacy_packed(extension, data);
    let n = extension.len() as u16;
    assert(b.subrange(0, 2) =~= spec_u16_to_le_bytes(n));
    assert(b.subrange(2, 2 + extension.len() as int) =~= extension);
    assert(b.subrange(2 + extension.len() as int, b.len() as int) =~= data);
}

} // verus!
