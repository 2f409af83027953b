//! The byte layout of an encrypted container: magic, version, key-derivation
//! costs, salt, nonce, ciphertext length and ciphertext.

use crate::text::{copy_range, push_all};
use vstd::bytes::*;
use vstd::prelude::*;

verus! {

/// Version of the container layout that is written.
pub const CURRENT_VERSION: u8 = 2;

/// Older layout whose payload carries no kind byte.
pub const LEGACY_VERSION: u8 = 1;

pub const SALT_LEN: usize = 16;

pub const NONCE_LEN: usize = 24;

/// Length of every field that precedes the ciphertext.
pub const FIXED_LEN: usize = 67;

/// Why the outer layout of a container could not be read.
#[derive(Clone, Copy, Debug, PartialEq, Eq, Structural)]
pub enum FormatError {
    BadMagic,
    UnsupportedVersion(u8),
    Truncated,
    TrailingBytes,
    /// A current-layout payload, complete, whose kind byte is neither file
    /// nor directory.
    UnknownKind(u8),
    BadArchive,
}

/// Argon2 cost parameters, stored in every header.
#[derive(Clone, Copy, Debug, PartialEq, Eq, Structural)]
pub struct KdfCosts {
    pub m_cost_kib: u32,
    pub t_cost: u32,
    pub p_cost: u32,
}

impl KdfCosts {
    /// The costs used when the caller names none.
    pub fn default_costs() -> (r: KdfCosts)
        ensures
            r.m_cost_kib == 19456 && r.t_cost == 2 && r.p_cost == 1,
    {
        KdfCosts { m_cost_kib: 19456, t_cost: 2, p_cost: 1 }
    }
}

/// A parsed container.
pub struct Header {
    pub version: u8,
    pub costs: KdfCosts,
    pub salt: Vec<u8>,
    pub nonce: Vec<u8>,
    pub ciphertext: Vec<u8>,
}

pub ghost struct HeaderView {
    pub version: u8,
    pub costs: KdfCosts,
    pub salt: Seq<u8>,
    pub nonce: Seq<u8>,
    pub ciphertext: Seq<u8>,
}

impl View for Header {
    type V = HeaderView;

    open spec fn view(&self) -> HeaderView {
        HeaderView {
            version: self.version,
            costs: self.costs,
            salt: self.salt@,
            nonce: self.nonce@,
            ciphertext: self.ciphertext@,
        }
    }
}

/// The six bytes "JJTOOL".
pub open spec fn magic() -> Seq<u8> {
    seq![0x4Au8, 0x4Au8, 0x54u8, 0x4Fu8, 0x4Fu8, 0x4Cu8]
}

pub open spec fn supported_version(v: u8) -> bool {
    v == LEGACY_VERSION || v == CURRENT_VERSION
}

/// The bytes of a container with the given fields.
pub open spec fn header_bytes(h: HeaderView) -> Seq<u8> {
    magic() + seq![h.version] + spec_u32_to_le_bytes(h.costs.m_cost_kib) + spec_u32_to_le_bytes(
        h.costs.t_cost,
    ) + spec_u32_to_le_bytes(h.costs.p_cost) + h.salt + h.nonce + spec_u64_to_le_bytes(
        h.ciphertext.len() as u64,
    ) + h.ciphertext
}

/// What reading the container `b` yields.
pub open spec fn parse_header(b: Seq<u8>) -> Result<HeaderView, FormatError> {
    if b.len() < 6 {
        Err(FormatError::Truncated)
    } else if b.subrange(0, 6) != magic() {
        Err(FormatError::BadMagic)
    } else if b.len() < 7 {
        Err(FormatError::Truncated)
    } else if !supported_version(b[6]) {
        Err(FormatError::UnsupportedVersion(b[6]))
    } else if b.len() < FIXED_LEN {
        Err(FormatError::Truncated)
    } else {
        let ct_len = spec_u64_from_le_bytes(b.subrange(59, 67));
        if b.len() - FIXED_LEN < ct_len {
            Err(FormatError::Truncated)
        } else if b.len() - FIXED_LEN > ct_len {
            Err(FormatError::TrailingBytes)
        } else {
            Ok(
                HeaderView {
                    version: b[6],
                    costs: KdfCosts {
                        m_cost_kib: spec_u32_from_le_bytes(b.subrange(7, 11)),
                        t_cost: spec_u32_from_le_bytes(b.subrange(11, 15)),
                        p_cost: spec_u32_from_le_bytes(b.subrange(15, 19)),
                    },
                    salt: b.subrange(19, 35),
                    nonce: b.subrange(35, 59),
                    ciphertext: b.subrange(67, b.len() as int),
                },
            )
        }
    }
}

pub open spec fn header_fields_valid(h: HeaderView) -> bool {
    &&& h.salt.len() == SALT_LEN
    &&& h.nonce.len() == NONCE_LEN
    &&& h.ciphertext.len() <= u64::MAX
}

fn magic_bytes() -> (r: Vec<u8>)
    ensures
        r@ == magic(),
{
    let r = vec![0x4Au8, 0x4Au8, 0x54u8, 0x4Fu8, 0x4Fu8, 0x4Cu8];
    assert(r@ == magic());
    r
}

/// Writes a container of the current version around `ciphertext`.
pub fn encode_header(costs: KdfCosts, salt: &[u8], nonce: &[u8], ciphertext: &[u8]) -> (r: Vec<
    u8,
>)
    requires
        salt@.len() == SALT_LEN,
        nonce@.len() == NONCE_LEN,
    ensures
        r@ == header_bytes(
            HeaderView {
                version: CURRENT_VERSION,
                costs,
                salt: salt@,
                nonce: nonce@,
                ciphertext: ciphertext@,
            },
        ),
{
    let mut out = magic_bytes();
    out.push(CURRENT_VERSION);
    let m = u32_to_le_bytes(costs.m_cost_kib);
    push_all(&mut out, m.as_slice());
    let t = u32_to_le_bytes(costs.t_cost);
    push_all(&mut out, t.as_slice());
    let p = u32_to_le_bytes(costs.p_cost);
    push_all(&mut out, p.as_slice());
    push_all(&mut out, salt);
    push_all(&mut out, nonce);
    let n = u64_to_le_bytes(ciphertext.len() as u64);
    push_all(&mut out, n.as_slice());
    push_all(&mut out, ciphertext);
    assert(out@ == header_bytes(
        HeaderView {
            version: CURRENT_VERSION,
            costs,
            salt: salt@,
            nonce: nonce@,
            ciphertext: ciphertext@,
        },
    ));
    out
}

fn read_u32(b: &[u8], at: usize) -> (r: u32)
    requires
        at + 4 <= b@.len(),
    ensures
        r == spec_u32_from_le_bytes(b@.subrange(at as int, at + 4)),
{
    let _n = b.len();
    u32_from_le_bytes(&b[at..at + 4])
}

fn read_u64(b: &[u8], at: usize) -> (r: u64)
    requires
        at + 8 <= b@.len(),
    ensures
        r == spec_u64_from_le_bytes(b@.subrange(at as int, at + 8)),
{
    let _n = b.len();
    u64_from_le_bytes(&b[at..at + 8])
}

/// Reads a container, checking magic, version and lengths.
pub fn decode_header(b: &[u8]) -> (r: Result<Header, FormatError>)
    ensures
        match r {
            Ok(h) => parse_header(b@) == Ok::<HeaderView, FormatError>(h@),
            Err(e) => parse_header(b@) == Err::<HeaderView, FormatError>(e),
        },
{
    if b.len() < 6 {
        return Err(FormatError::Truncated);
    }
    let m = magic_bytes();
    let mut i: usize = 0;
    while i < 6
        invariant
            b@.len() >= 6,
            m@ == magic(),
            i <= 6,
            b@.subrange(0, i as int) == m@.subrange(0, i as int),
        decreases 6 - i,
    {
        if b[i] != m[i] {
            assert(b@.subrange(0, 6)[i as int] != magic()[i as int]);
            return Err(FormatError::BadMagic);
        }
        assert(b@.subrange(0, i + 1) == b@.subrange(0, i as int).push(b@[i as int]));
        assert(m@.subrange(0, i + 1) == m@.subrange(0, i as int).push(m@[i as int]));
        i = i + 1;
    }
    assert(m@.subrange(0, 6) == m@);
    if b.len() < 7 {
        return Err(FormatError::Truncated);
    }
    let version = b[6];
    if version != LEGACY_VERSION && version != CURRENT_VERSION {
        return Err(FormatError::UnsupportedVersion(version));
    }
    if b.len() < FIXED_LEN {
        return Err(FormatError::Truncated);
    }
    let ct_len = read_u64(b, 59);
    let rest = b.len() - FIXED_LEN;
    if (rest as u64) < ct_len {
        return Err(FormatError::Truncated);
    }
    if (rest as u64) > ct_len {
        return Err(FormatError::TrailingBytes);
    }
    let costs = KdfCosts {
        m_cost_kib: read_u32(b, 7),
        t_cost: read_u32(b, 11),
        p_cost: read_u32(b, 15),
    };
    let h = Header {
        version,
        costs,
        salt: copy_range(b, 19, 35),
        nonce: copy_range(b, 35, 59),
        ciphertext: copy_range(b, FIXED_LEN, b.len()),
    };
    Ok(h)
}

/// A container is its fixed fields followed by the ciphertext.
pub proof fn lemma_header_bytes_len(h: HeaderView)
    requires
        h.salt.len() == SALT_LEN,
        h.nonce.len() == NONCE_LEN,
    ensures
        header_bytes(h).len() == FIXED_LEN + h.ciphertext.len(),
{
    lemma_auto_spec_u32_to_from_le_bytes();
    lemma_auto_spec_u64_to_from_le_bytes();
}

/// Reading a container that was written from valid fields gives those fields back.
pub proof fn lemma_parse_header_bytes(h: HeaderView)
    requires
        header_fields_valid(h),
        supported_version(h.version),
    ensures
        parse_header(header_bytes(h)) == Ok::<HeaderView, FormatError>(h),
{
    lemma_auto_spec_u32_to_from_le_bytes();
    lemma_auto_spec_u64_to_from_le_bytes();
    let b = header_bytes(h);
    let m = spec_u32_to_le_bytes(h.costs.m_cost_kib);
    let t = spec_u32_to_le_bytes(h.costs.t_cost);
    let p = spec_u32_to_le_bytes(h.costs.p_cost);
    let n = spec_u64_to_le_bytes(h.ciphertext.len() as u64);
    assert(b.len() == FIXED_LEN + h.ciphertext.len());
    assert(b.subrange(0, 6) =~= magic());
    assert(b[6] == h.version);
    assert(b.subrange(7, 11) =~= m);
    assert(b.subrange(11, 15) =~= t);
    assert(b.subrange(15, 19) =~= p);
    assert(b.subrange(19, 35) =~= h.salt);
    assert(b.subrange(35, 59) =~= h.nonce);
    assert(b.subrange(59, 67) =~= n);
    assert(b.subrange(67, b.len() as int) =~= h.ciphertext);
}

} // verus!
