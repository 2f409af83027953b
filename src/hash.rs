//! Rules of the hashing commands: algorithm names, the decimal option,
//! comparison of digests and the lines of a manifest.

use crate::digests::{
    blake3_digest, blake3_hash, crc32_checksum, crc32_hash, crc32c_checksum, crc32c_hash, decimal,
    decimal_digits, encode_upper, hex8, hex_digits, lemma_hex_digits_len, lemma_upper_hex_len,
    md5_digest, md5_hash, sha1_digest, sha1_hash, sha256_digest, sha256_hash, upper_hex,
};
use crate::text::{
    ascii_bytes, bytes_eq, contains_space, copy_bytes, eq_ignore_case, has_space, lower_text,
    push_all, to_lower, trim, trimmed,
};
use vstd::prelude::*;

verus! {

#[derive(Clone, Copy, Debug, PartialEq, Eq, Structural)]
pub enum Algorithm {
    Blake3,
    Md5,
    Sha1,
    Sha256,
    Crc32,
    Crc32c,
}

/// Settings of the hash command.
pub struct HashArgs {
    pub path: String,
    pub directory: bool,
    pub algorithm: Algorithm,
    pub decimal: bool,
    pub output: Option<String>,
}

/// Settings of the hash verification command: with an expected digest a
/// single file is checked, without one `path` is a manifest.
pub struct HashVerifyArgs {
    pub path: String,
    pub expected: Option<String>,
    pub algorithm: Option<Algorithm>,
    pub decimal: bool,
}

#[derive(Clone, Copy, Debug, PartialEq, Eq, Structural)]
pub enum HashError {
    /// Decimal output was asked of an algorithm other than CRC32 or CRC32C.
    DecimalUnsupported,
    UnknownAlgorithm,
}

impl Algorithm {
    pub open spec fn spec_name(self) -> Seq<char> {
        match self {
            Algorithm::Blake3 => seq!['b', 'l', 'a', 'k', 'e', '3'],
            Algorithm::Md5 => seq!['m', 'd', '5'],
            Algorithm::Sha1 => seq!['s', 'h', 'a', '1'],
            Algorithm::Sha256 => seq!['s', 'h', 'a', '2', '5', '6'],
            Algorithm::Crc32 => seq!['c', 'r', 'c', '3', '2'],
            Algorithm::Crc32c => seq!['c', 'r', 'c', '3', '2', 'c'],
        }
    }

    /// The lower-case name, as written in manifests and file names.
    pub fn name(self) -> (r: &'static str)
        ensures
            r@ == self.spec_name(),
    {
        proof {
            reveal_strlit("blake3");
            reveal_strlit("md5");
            reveal_strlit("sha1");
            reveal_strlit("sha256");
            reveal_strlit("crc32");
            reveal_strlit("crc32c");
        }
        match self {
            Algorithm::Blake3 => "blake3",
            Algorithm::Md5 => "md5",
            Algorithm::Sha1 => "sha1",
            Algorithm::Sha256 => "sha256",
            Algorithm::Crc32 => "crc32",
            Algorithm::Crc32c => "crc32c",
        }
    }

    /// The bytes of `name()`.
    pub fn name_bytes(self) -> (r: Vec<u8>)
        ensures
            r@ == ascii_bytes(self.spec_name()),
    {
        let r = match self {
            Algorithm::Blake3 => vec!['b' as u8, 'l' as u8, 'a' as u8, 'k' as u8, 'e' as u8, '3' as u8],
            Algorithm::Md5 => vec!['m' as u8, 'd' as u8, '5' as u8],
            Algorithm::Sha1 => vec!['s' as u8, 'h' as u8, 'a' as u8, '1' as u8],
            Algorithm::Sha256 => vec!['s' as u8, 'h' as u8, 'a' as u8, '2' as u8, '5' as u8, '6' as u8],
            Algorithm::Crc32 => vec!['c' as u8, 'r' as u8, 'c' as u8, '3' as u8, '2' as u8],
            Algorithm::Crc32c => vec!['c' as u8, 'r' as u8, 'c' as u8, '3' as u8, '2' as u8, 'c' as u8],
        };
        assert(r@ =~= ascii_bytes(self.spec_name()));
        r
    }

    pub open spec fn is_crc(self) -> bool {
        self == Algorithm::Crc32 || self == Algorithm::Crc32c
    }
}

/// Decimal output exists for the CRC algorithms only.
pub fn ensure_decimal_supported(algorithm: Algorithm, decimal: bool) -> (r: Result<(), HashError>)
    ensures
        r is Ok <==> (!decimal || algorithm.is_crc()),
        r is Err ==> r == Err::<(), HashError>(HashError::DecimalUnsupported),
{
    if decimal {
        match algorithm {
            Algorithm::Crc32 | Algorithm::Crc32c => Ok(()),
            _ => Err(HashError::DecimalUnsupported),
        }
    } else {
        Ok(())
    }
}

/// Whether two digests are the same, ignoring surrounding whitespace and
/// the case of hexadecimal letters.
pub fn eq_hex(a: &[u8], b: &[u8]) -> (r: bool)
    ensures
        r == (lower_text(trimmed(a@)) == lower_text(trimmed(b@))),
{
    eq_ignore_case(trim(a), trim(b))
}

/// The algorithm whose name, up to case and surrounding whitespace, is `s`.
pub open spec fn algorithm_named(s: Seq<u8>) -> Option<Algorithm> {
    let t = lower_text(trimmed(s));
    if t == ascii_bytes(Algorithm::Blake3.spec_name()) {
        Some(Algorithm::Blake3)
    } else if t == ascii_bytes(Algorithm::Md5.spec_name()) {
        Some(Algorithm::Md5)
    } else if t == ascii_bytes(Algorithm::Sha1.spec_name()) {
        Some(Algorithm::Sha1)
    } else if t == ascii_bytes(Algorithm::Sha256.spec_name()) {
        Some(Algorithm::Sha256)
    } else if t == ascii_bytes(Algorithm::Crc32.spec_name()) {
        Some(Algorithm::Crc32)
    } else if t == ascii_bytes(Algorithm::Crc32c.spec_name()) {
        Some(Algorithm::Crc32c)
    } else {
        None
    }
}

/// Reads an algorithm name as written in a manifest header.
pub fn parse_algorithm(s: &[u8]) -> (r: Result<Algorithm, HashError>)
    ensures
        match algorithm_named(s@) {
            Some(a) => r == Ok::<Algorithm, HashError>(a),
            None => r == Err::<Algorithm, HashError>(HashError::UnknownAlgorithm),
        },
{
    let t = to_lower(trim(s));
    let t = t.as_slice();
    if bytes_eq(t, Algorithm::Blake3.name_bytes().as_slice()) {
        Ok(Algorithm::Blake3)
    } else if bytes_eq(t, Algorithm::Md5.name_bytes().as_slice()) {
        Ok(Algorithm::Md5)
    } else if bytes_eq(t, Algorithm::Sha1.name_bytes().as_slice()) {
        Ok(Algorithm::Sha1)
    } else if bytes_eq(t, Algorithm::Sha256.name_bytes().as_slice()) {
        Ok(Algorithm::Sha256)
    } else if bytes_eq(t, Algorithm::Crc32.name_bytes().as_slice()) {
        Ok(Algorithm::Crc32)
    } else if bytes_eq(t, Algorithm::Crc32c.name_bytes().as_slice()) {
        Ok(Algorithm::Crc32c)
    } else {
        Err(HashError::UnknownAlgorithm)
    }
}

/// The text of a checksum: eight upper-case hexadecimal digits, or decimal.
pub open spec fn checksum_text(v: u32, decimal: bool) -> Seq<char> {
    if decimal {
        decimal_digits(v as nat)
    } else {
        hex_digits(v as int, 8)
    }
}

/// The digest of `data` as written by the hash commands: upper-case
/// hexadecimal, or, for the CRC algorithms with `decimal`, a decimal number.
pub open spec fn digest_text(data: Seq<u8>, algorithm: Algorithm, decimal: bool) -> Seq<char> {
    match algorithm {
        Algorithm::Blake3 => upper_hex(blake3_digest(data)),
        Algorithm::Md5 => upper_hex(md5_digest(data)),
        Algorithm::Sha1 => upper_hex(sha1_digest(data)),
        Algorithm::Sha256 => upper_hex(sha256_digest(data)),
        Algorithm::Crc32 => checksum_text(crc32_checksum(data), decimal),
        Algorithm::Crc32c => checksum_text(crc32c_checksum(data), decimal),
    }
}

fn checksum_string(v: u32, as_decimal: bool) -> (r: String)
    ensures
        r@ == checksum_text(v, as_decimal),
{
    if as_decimal {
        decimal(v)
    } else {
        hex8(v)
    }
}

/// Hashes `data` with `algorithm`. `decimal` matters for the CRC algorithms
/// only; `ensure_decimal_supported` refuses it for the others.
pub fn hash_bytes(data: &[u8], algorithm: Algorithm, decimal: bool) -> (r: String)
    ensures
        r@ == digest_text(data@, algorithm, decimal),
        algorithm == Algorithm::Blake3 ==> r@.len() == 64,
        algorithm == Algorithm::Md5 ==> r@.len() == 32,
        algorithm == Algorithm::Sha1 ==> r@.len() == 40,
        algorithm == Algorithm::Sha256 ==> r@.len() == 64,
        algorithm.is_crc() && !decimal ==> r@.len() == 8,
{
    match algorithm {
        Algorithm::Blake3 => {
            let d = blake3_hash(data);
            proof {
                lemma_upper_hex_len(d@);
            }
            encode_upper(d.as_slice())
        },
        Algorithm::Md5 => {
            let d = md5_hash(data);
            proof {
                lemma_upper_hex_len(d@);
            }
            encode_upper(d.as_slice())
        },
        Algorithm::Sha1 => {
            let d = sha1_hash(data);
            proof {
                lemma_upper_hex_len(d@);
            }
            encode_upper(d.as_slice())
        },
        Algorithm::Sha256 => {
            let d = sha256_hash(data);
            proof {
                lemma_upper_hex_len(d@);
            }
            encode_upper(d.as_slice())
        },
        Algorithm::Crc32 => {
            let v = crc32_hash(data);
            proof {
                lemma_hex_digits_len(v as int, 8);
            }
            checksum_string(v, decimal)
        },
        Algorithm::Crc32c => {
            let v = crc32c_hash(data);
            proof {
                lemma_hex_digits_len(v as int, 8);
            }
            checksum_string(v, decimal)
        },
    }
}

/// `path` with every '\' turned into '/'.
pub open spec fn unix_path(path: Seq<u8>) -> Seq<u8> {
    path.map_values(|c: u8| if c == 92 { 47u8 } else { c })
}

/// `path` with every '/' turned into '\'.
pub open spec fn windows_path(path: Seq<u8>) -> Seq<u8> {
    path.map_values(|c: u8| if c == 47 { 92u8 } else { c })
}

fn replace_byte(path: &[u8], from: u8, to: u8) -> (r: Vec<u8>)
    ensures
        r@ == path@.map_values(|c: u8| if c == from { to } else { c }),
{
    let mut out: Vec<u8> = Vec::new();
    let mut i: usize = 0;
    while i < path.len()
        invariant
            i <= path@.len(),
            out@ == path@.subrange(0, i as int).map_values(|c: u8| if c == from { to } else { c }),
        decreases path@.len() - i,
    {
        let c = path[i];
        out.push(if c == from { to } else { c });
        i = i + 1;
        assert(path@.subrange(0, i as int).map_values(|c: u8| if c == from { to } else { c })
            =~= path@.subrange(0, i - 1 as int).map_values(|c: u8| if c == from { to } else { c }).push(
            if c == from { to } else { c },
        ));
    }
    assert(path@.subrange(0, i as int) =~= path@);
    out
}

/// The two lines of a manifest entry: a header `#<algorithm>#<path>` with
/// Windows separators, then `<digest> *<path>` with Unix separators.
pub open spec fn manifest_entry_text(algorithm: Algorithm, path: Seq<u8>, digest: Seq<u8>) -> Seq<u8> {
    seq![35u8] + ascii_bytes(algorithm.spec_name()) + seq![35u8] + windows_path(path) + seq![10u8]
        + digest + seq![32u8, 42u8] + unix_path(path) + seq![10u8]
}

/// Writes the manifest lines for one hashed file.
pub fn manifest_entry(algorithm: Algorithm, path: &[u8], digest: &[u8]) -> (r: Vec<u8>)
    ensures
        r@ == manifest_entry_text(algorithm, path@, digest@),
{
    let mut out: Vec<u8> = vec![35u8];
    let name = algorithm.name_bytes();
    push_all(&mut out, name.as_slice());
    out.push(35u8);
    let win = replace_byte(path, 47, 92);
    push_all(&mut out, win.as_slice());
    out.push(10u8);
    push_all(&mut out, digest);
    out.push(32u8);
    out.push(42u8);
    let unix = replace_byte(path, 92, 47);
    push_all(&mut out, unix.as_slice());
    out.push(10u8);
    assert(out@ =~= manifest_entry_text(algorithm, path@, digest@));
    out
}

/// Why a manifest could not be read. Line numbers count from one.
#[derive(Clone, Copy, Debug, PartialEq, Eq, Structural)]
pub enum ManifestError {
    /// A line starting with '#' has no second '#'.
    BadHeader(usize),
    /// A digest line after a header holds more than one word.
    BadBody(usize),
    /// A line that is neither a header nor a digest.
    UnexpectedLine(usize),
    /// The first header names no known algorithm.
    UnknownAlgorithm,
    /// No header names an algorithm.
    MissingAlgorithm,
}

/// A parsed manifest: the algorithm of its first header, and its
/// `(path, digest)` entries in order of appearance. A later entry for the
/// same path replaces an earlier one.
pub struct Manifest {
    pub algorithm: Algorithm,
    pub entries: Vec<(Vec<u8>, Vec<u8>)>,
}

pub ghost struct ManifestState {
    pub algorithm: Option<Algorithm>,
    pub entries: Seq<(Seq<u8>, Seq<u8>)>,
    pub pending: Option<Seq<u8>>,
}

pub open spec fn pairs_view(v: Seq<(Vec<u8>, Vec<u8>)>) -> Seq<(Seq<u8>, Seq<u8>)> {
    v.map_values(|e: (Vec<u8>, Vec<u8>)| (e.0@, e.1@))
}

pub open spec fn lines_view(v: Seq<Vec<u8>>) -> Seq<Seq<u8>> {
    v.map_values(|l: Vec<u8>| l@)
}

/// The first position of `b` in `s`.
pub open spec fn first_index(s: Seq<u8>, b: u8) -> Option<int> {
    if exists|i: int| 0 <= i < s.len() && s[i] == b {
        Some(choose|i: int| 0 <= i < s.len() && s[i] == b && forall|j: int| 0 <= j < i ==> s[j] != b)
    } else {
        None
    }
}

/// The first position of " *" in `s`.
pub open spec fn first_star(s: Seq<u8>) -> Option<int> {
    if exists|i: int| 0 <= i < s.len() - 1 && #[trigger] s[i] == 32 && s[i + 1] == 42 {
        Some(
            choose|i: int|
                0 <= i < s.len() - 1 && #[trigger] s[i] == 32 && s[i + 1] == 42 && forall|j: int|
                    0 <= j < i ==> !(#[trigger] s[j] == 32 && s[j + 1] == 42),
        )
    } else {
        None
    }
}


/// Reading a trimmed header line `t`, starting with '#'.
pub open spec fn header_step(st: ManifestState, t: Seq<u8>, n: int) -> Result<ManifestState, ManifestError> {
    let rest = t.drop_first();
    match first_index(rest, 35) {
        None => Err(ManifestError::BadHeader(n as usize)),
        Some(k) => {
            let path = unix_path(rest.subrange(k + 1, rest.len() as int));
            if st.algorithm is None {
                match algorithm_named(rest.subrange(0, k)) {
                    None => Err(ManifestError::UnknownAlgorithm),
                    Some(a) => Ok(ManifestState { algorithm: Some(a), entries: st.entries, pending: Some(path) }),
                }
            } else {
                Ok(ManifestState { algorithm: st.algorithm, entries: st.entries, pending: Some(path) })
            }
        },
    }
}

/// Reading a trimmed digest line `t`.
pub open spec fn body_step(st: ManifestState, t: Seq<u8>, n: int) -> Result<ManifestState, ManifestError> {
    match first_star(t) {
        Some(k) => Ok(
            ManifestState {
                algorithm: st.algorithm,
                entries: st.entries.push(
                    (unix_path(t.subrange(k + 2, t.len() as int)), trimmed(t.subrange(0, k))),
                ),
                pending: None,
            },
        ),
        None => match st.pending {
            Some(prev) => if has_space(t) {
                Err(ManifestError::BadBody(n as usize))
            } else {
                Ok(ManifestState { algorithm: st.algorithm, entries: st.entries.push((prev, t)), pending: None })
            },
            None => Err(ManifestError::UnexpectedLine(n as usize)),
        },
    }
}

/// Reading line `n` of a manifest in state `st`: blank lines are skipped.
pub open spec fn manifest_step(st: ManifestState, line: Seq<u8>, n: int) -> Result<ManifestState, ManifestError> {
    let t = trimmed(line);
    if t.len() == 0 {
        Ok(st)
    } else if t[0] == 35 {
        header_step(st, t, n)
    } else {
        body_step(st, t, n)
    }
}

/// The state after the first `k` lines.
pub open spec fn manifest_prefix(lines: Seq<Seq<u8>>, k: nat) -> Result<ManifestState, ManifestError>
    decreases k,
{
    if k == 0 {
        Ok(ManifestState { algorithm: None, entries: Seq::empty(), pending: None })
    } else {
        match manifest_prefix(lines, (k - 1) as nat) {
            Err(e) => Err(e),
            Ok(st) => manifest_step(st, lines[k - 1], k as int),
        }
    }
}

/// What reading the manifest `lines` gives.
pub open spec fn manifest_of(lines: Seq<Seq<u8>>) -> Result<(Algorithm, Seq<(Seq<u8>, Seq<u8>)>), ManifestError> {
    match manifest_prefix(lines, lines.len()) {
        Err(e) => Err(e),
        Ok(st) => match st.algorithm {
            None => Err(ManifestError::MissingAlgorithm),
            Some(a) => Ok((a, st.entries)),
        },
    }
}

fn find_byte(s: &[u8], b: u8) -> (r: Option<usize>)
    ensures
        r is Some ==> r->0 < s@.len() && first_index(s@, b) == Some(r->0 as int),
        r is None ==> first_index(s@, b) is None,
{
    let mut i: usize = 0;
    while i < s.len()
        invariant
            i <= s@.len(),
            forall|j: int| 0 <= j < i ==> s@[j] != b,
        decreases s@.len() - i,
    {
        if s[i] == b {
            proof {
                let k = first_index(s@, b)->0;
                assert(0 <= k < s@.len() && s@[k] == b && forall|j: int| 0 <= j < k ==> s@[j] != b);
                if k < i {
                } else if k > i {
                    assert(s@[i as int] != b);
                }
            }
            return Some(i);
        }
        i = i + 1;
    }
    None
}

fn find_star(s: &[u8]) -> (r: Option<usize>)
    ensures
        r is Some ==> r->0 + 1 < s@.len() && first_star(s@) == Some(r->0 as int),
        r is None ==> first_star(s@) is None,
{
    let mut i: usize = 0;
    while s.len() > 0 && i < s.len() - 1
        invariant
            forall|j: int| 0 <= j < i && j < s@.len() - 1 ==> !(#[trigger] s@[j] == 32 && s@[j + 1] == 42),
        decreases s@.len() - i,
    {
        if s[i] == 32 && s[i + 1] == 42 {
            proof {
                let k = first_star(s@)->0;
                if k > i {
                    assert(!(s@[i as int] == 32 && s@[i + 1] == 42));
                }
            }
            return Some(i);
        }
        i = i + 1;
    }
    None
}


struct Scan {
    algorithm: Option<Algorithm>,
    entries: Vec<(Vec<u8>, Vec<u8>)>,
    pending: Option<Vec<u8>>,
}

impl View for Scan {
    type V = ManifestState;

    closed spec fn view(&self) -> ManifestState {
        ManifestState {
            algorithm: self.algorithm,
            entries: pairs_view(self.entries@),
            pending: match self.pending {
                Some(p) => Some(p@),
                None => None,
            },
        }
    }
}

fn scan_header(st: &mut Scan, t: &[u8], n: usize) -> (r: Result<(), ManifestError>)
    requires
        t@.len() > 0,
    ensures
        match header_step(old(st)@, t@, n as int) {
            Ok(next) => r is Ok && final(st)@ == next,
            Err(e) => r == Err::<(), ManifestError>(e),
        },
{
    let rest = &t[1..t.len()];
    assert(rest@ == t@.drop_first());
    match find_byte(rest, 35) {
        None => Err(ManifestError::BadHeader(n)),
        Some(k) => {
            let path = replace_byte(&rest[k + 1..rest.len()], 92, 47);
            if st.algorithm.is_none() {
                match parse_algorithm(&rest[0..k]) {
                    Ok(a) => {
                        st.algorithm = Some(a);
                    },
                    Err(_) => {
                        return Err(ManifestError::UnknownAlgorithm);
                    },
                }
            }
            st.pending = Some(path);
            Ok(())
        },
    }
}

fn scan_body(st: &mut Scan, t: &[u8], n: usize) -> (r: Result<(), ManifestError>)
    ensures
        match body_step(old(st)@, t@, n as int) {
            Ok(next) => r is Ok && final(st)@ == next,
            Err(e) => r == Err::<(), ManifestError>(e),
        },
{
    let tl = t.len();
    match find_star(t) {
        Some(k) => {
            let path = replace_byte(&t[k + 2..tl], 92, 47);
            let digest = copy_bytes(trim(&t[0..k]));
            st.entries.push((path, digest));
            assert(pairs_view(st.entries@) =~= pairs_view(old(st).entries@).push(
                (unix_path(t@.subrange(k + 2, t@.len() as int)), trimmed(t@.subrange(0, k as int))),
            ));
            st.pending = None;
            Ok(())
        },
        None => {
            let pending = st.pending.take();
            match pending {
                Some(prev) => {
                    if contains_space(t) {
                        return Err(ManifestError::BadBody(n));
                    }
                    let word = copy_bytes(t);
                    st.entries.push((prev, word));
                    assert(pairs_view(st.entries@) =~= pairs_view(old(st).entries@).push((prev@, t@)));
                    Ok(())
                },
                None => Err(ManifestError::UnexpectedLine(n)),
            }
        },
    }
}

fn scan_line(st: &mut Scan, line: &[u8], n: usize) -> (r: Result<(), ManifestError>)
    ensures
        match manifest_step(old(st)@, line@, n as int) {
            Ok(next) => r is Ok && final(st)@ == next,
            Err(e) => r == Err::<(), ManifestError>(e),
        },
{
    let t = trim(line);
    if t.len() == 0 {
        Ok(())
    } else if t[0] == 35 {
        scan_header(st, t, n)
    } else {
        scan_body(st, t, n)
    }
}

/// Reads a manifest, given as its lines without line ends: headers
/// `#<algorithm>#<path>` and digest lines `<digest> *<path>`, or a lone
/// digest on the line after a header. Paths are given Unix separators.
pub fn parse_manifest(lines: &[Vec<u8>]) -> (r: Result<Manifest, ManifestError>)
    ensures
        match manifest_of(lines_view(lines@)) {
            Ok((a, entries)) => r is Ok && r->Ok_0.algorithm == a && pairs_view(r->Ok_0.entries@)
                == entries,
            Err(e) => r == Err::<Manifest, ManifestError>(e),
        },
{
    let ghost lv = lines_view(lines@);
    let mut st = Scan { algorithm: None, entries: Vec::new(), pending: None };
    assert(pairs_view(st.entries@) =~= Seq::empty());
    assert(st@ == ManifestState { algorithm: None, entries: Seq::empty(), pending: None });
    let mut i: usize = 0;
    while i < lines.len()
        invariant
            i <= lines@.len(),
            lv == lines_view(lines@),
            manifest_prefix(lv, i as nat) == Ok::<ManifestState, ManifestError>(st@),
        decreases lines@.len() - i,
    {
        let line = lines[i].as_slice();
        assert(lv[i as int] == line@);
        let n = i + 1;
        match scan_line(&mut st, line, n) {
            Ok(()) => {},
            Err(e) => {
                assert(manifest_prefix(lv, n as nat) == Err::<ManifestState, ManifestError>(e));
                proof {
                    lemma_prefix_error_stays(lv, n as nat, lv.len());
                }
                return Err(e);
            },
        }
        i = n;
    }
    match st.algorithm {
        None => Err(ManifestError::MissingAlgorithm),
        Some(a) => Ok(Manifest { algorithm: a, entries: st.entries }),
    }
}

proof fn lemma_prefix_error_stays(lines: Seq<Seq<u8>>, k: nat, m: nat)
    requires
        k <= m,
        manifest_prefix(lines, k) is Err,
    ensures
        manifest_prefix(lines, m) == manifest_prefix(lines, k),
    decreases m - k,
{
    if k < m {
        lemma_prefix_error_stays(lines, k, (m - 1) as nat);
    }
}

/// The digest that manifest entries give `key`: that of its last entry.
pub open spec fn expected_digest(entries: Seq<(Seq<u8>, Seq<u8>)>, key: Seq<u8>) -> Option<Seq<u8>>
    decreases entries.len(),
{
    if entries.len() == 0 {
        None
    } else if entries.last().0 == key {
        Some(entries.last().1)
    } else {
        expected_digest(entries.drop_last(), key)
    }
}

pub open spec fn digests_match(a: Seq<u8>, b: Seq<u8>) -> bool {
    lower_text(trimmed(a)) == lower_text(trimmed(b))
}

/// Files whose digest differs from the manifest's: `(path, expected, got)`,
/// in the order found.
pub open spec fn mismatched(
    entries: Seq<(Seq<u8>, Seq<u8>)>,
    found: Seq<(Seq<u8>, Seq<u8>)>,
) -> Seq<(Seq<u8>, Seq<u8>, Seq<u8>)>
    decreases found.len(),
{
    if found.len() == 0 {
        Seq::empty()
    } else {
        let (k, got) = found.last();
        let rest = mismatched(entries, found.drop_last());
        match expected_digest(entries, k) {
            Some(exp) => if digests_match(got, exp) {
                rest
            } else {
                rest.push((k, exp, got))
            },
            None => rest,
        }
    }
}

/// Files found that the manifest does not list, in the order found.
pub open spec fn unlisted(entries: Seq<(Seq<u8>, Seq<u8>)>, found: Seq<(Seq<u8>, Seq<u8>)>) -> Seq<Seq<u8>>
    decreases found.len(),
{
    if found.len() == 0 {
        Seq::empty()
    } else {
        let rest = unlisted(entries, found.drop_last());
        if expected_digest(entries, found.last().0) is None {
            rest.push(found.last().0)
        } else {
            rest
        }
    }
}

pub open spec fn was_found(found: Seq<(Seq<u8>, Seq<u8>)>, key: Seq<u8>) -> bool {
    exists|i: int| 0 <= i < found.len() && (#[trigger] found[i]).0 == key
}

/// Paths the manifest lists that were not found, each once, in the order of
/// their first entry.
pub open spec fn not_found(entries: Seq<(Seq<u8>, Seq<u8>)>, found: Seq<(Seq<u8>, Seq<u8>)>) -> Seq<Seq<u8>>
    decreases entries.len(),
{
    if entries.len() == 0 {
        Seq::empty()
    } else {
        let rest = not_found(entries.drop_last(), found);
        let k = entries.last().0;
        if was_found(found, k) || rest.contains(k) {
            rest
        } else {
            rest.push(k)
        }
    }
}

/// The outcome of checking files against a manifest.
pub struct VerifyReport {
    pub mismatches: Vec<(Vec<u8>, Vec<u8>, Vec<u8>)>,
    pub missing: Vec<Vec<u8>>,
    pub extra: Vec<Vec<u8>>,
}

pub open spec fn triples_view(v: Seq<(Vec<u8>, Vec<u8>, Vec<u8>)>) -> Seq<(Seq<u8>, Seq<u8>, Seq<u8>)> {
    v.map_values(|e: (Vec<u8>, Vec<u8>, Vec<u8>)| (e.0@, e.1@, e.2@))
}

pub open spec fn keys_view(v: Seq<Vec<u8>>) -> Seq<Seq<u8>> {
    v.map_values(|e: Vec<u8>| e@)
}

impl VerifyReport {
    pub open spec fn is_clean(&self) -> bool {
        self.mismatches@.len() == 0 && self.missing@.len() == 0 && self.extra@.len() == 0
    }

    /// Whether every file matched and none was missing or extra.
    pub fn ok(&self) -> (r: bool)
        ensures
            r == self.is_clean(),
    {
        self.mismatches.len() == 0 && self.missing.len() == 0 && self.extra.len() == 0
    }
}

fn lookup(entries: &[(Vec<u8>, Vec<u8>)], key: &[u8]) -> (r: Option<Vec<u8>>)
    ensures
        match expected_digest(pairs_view(entries@), key@) {
            Some(d) => r is Some && r->0@ == d,
            None => r is None,
        },
{
    let ghost all = pairs_view(entries@);
    let mut i: usize = entries.len();
    assert(all.subrange(0, i as int) =~= all);
    while i > 0
        invariant
            i <= entries@.len(),
            all == pairs_view(entries@),
            expected_digest(all, key@) == expected_digest(all.subrange(0, i as int), key@),
        decreases i,
    {
        let ghost pre = all.subrange(0, i as int);
        assert(pre.drop_last() =~= all.subrange(0, i - 1));
        if bytes_eq(entries[i - 1].0.as_slice(), key) {
            return Some(copy_bytes(entries[i - 1].1.as_slice()));
        }
        i = i - 1;
    }
    None
}

fn listed_before(keys: &Vec<Vec<u8>>, key: &[u8]) -> (r: bool)
    ensures
        r == keys_view(keys@).contains(key@),
{
    let mut i: usize = 0;
    while i < keys.len()
        invariant
            i <= keys@.len(),
            forall|j: int| 0 <= j < i ==> keys@[j]@ != key@,
        decreases keys@.len() - i,
    {
        if bytes_eq(keys[i].as_slice(), key) {
            assert(keys_view(keys@)[i as int] == key@);
            return true;
        }
        i = i + 1;
    }
    assert(!keys_view(keys@).contains(key@)) by {
        if keys_view(keys@).contains(key@) {
            let j = choose|j: int| 0 <= j < keys_view(keys@).len() && keys_view(keys@)[j] == key@;
            assert(keys@[j]@ == key@);
        }
    }
    false
}

fn found_key(found: &[(Vec<u8>, Vec<u8>)], key: &[u8]) -> (r: bool)
    ensures
        r == was_found(pairs_view(found@), key@),
{
    let mut i: usize = 0;
    while i < found.len()
        invariant
            i <= found@.len(),
            forall|j: int| 0 <= j < i ==> found@[j].0@ != key@,
        decreases found@.len() - i,
    {
        if bytes_eq(found[i].0.as_slice(), key) {
            assert(pairs_view(found@)[i as int].0 == key@);
            return true;
        }
        i = i + 1;
    }
    assert(!was_found(pairs_view(found@), key@)) by {
        if was_found(pairs_view(found@), key@) {
            let j = choose|j: int| 0 <= j < pairs_view(found@).len() && (#[trigger] pairs_view(found@)[j]).0 == key@;
            assert(found@[j].0@ == key@);
        }
    }
    false
}

/// Compares the files found, `(path, digest)` in the order found, with the
/// entries of a manifest.
pub fn compare_with_manifest(entries: &[(Vec<u8>, Vec<u8>)], found: &[(Vec<u8>, Vec<u8>)]) -> (r: VerifyReport)
    ensures
        triples_view(r.mismatches@) == mismatched(pairs_view(entries@), pairs_view(found@)),
        keys_view(r.extra@) == unlisted(pairs_view(entries@), pairs_view(found@)),
        keys_view(r.missing@) == not_found(pairs_view(entries@), pairs_view(found@)),
{
    let ghost ev = pairs_view(entries@);
    let ghost fv = pairs_view(found@);
    let mut mismatches: Vec<(Vec<u8>, Vec<u8>, Vec<u8>)> = Vec::new();
    let mut extra: Vec<Vec<u8>> = Vec::new();
    let mut i: usize = 0;
    while i < found.len()
        invariant
            i <= found@.len(),
            ev == pairs_view(entries@),
            fv == pairs_view(found@),
            triples_view(mismatches@) == mismatched(ev, fv.subrange(0, i as int)),
            keys_view(extra@) == unlisted(ev, fv.subrange(0, i as int)),
        decreases found@.len() - i,
    {
        let ghost pre = fv.subrange(0, i + 1);
        assert(pre.drop_last() =~= fv.subrange(0, i as int));
        assert(pre.last() == fv[i as int]);
        let key = found[i].0.as_slice();
        let got = found[i].1.as_slice();
        match lookup(entries, key) {
            Some(exp) => {
                if !eq_hex(got, exp.as_slice()) {
                    let ghost before = triples_view(mismatches@);
                    mismatches.push((copy_bytes(key), exp, copy_bytes(got)));
                    assert(triples_view(mismatches@) =~= before.push((key@, exp@, got@)));
                }
            },
            None => {
                let ghost before = keys_view(extra@);
                extra.push(copy_bytes(key));
                assert(keys_view(extra@) =~= before.push(key@));
            },
        }
        i = i + 1;
    }
    assert(fv.subrange(0, i as int) =~= fv);
    let mut missing: Vec<Vec<u8>> = Vec::new();
    let mut j: usize = 0;
    while j < entries.len()
        invariant
            j <= entries@.len(),
            ev == pairs_view(entries@),
            fv == pairs_view(found@),
            keys_view(missing@) == not_found(ev.subrange(0, j as int), fv),
        decreases entries@.len() - j,
    {
        let ghost pre = ev.subrange(0, j + 1);
        assert(pre.drop_last() =~= ev.subrange(0, j as int));
        assert(pre.last() == ev[j as int]);
        let key = entries[j].0.as_slice();
        if !found_key(found, key) && !listed_before(&missing, key) {
            let ghost before = keys_view(missing@);
            missing.push(copy_bytes(key));
            assert(keys_view(missing@) =~= before.push(key@));
        }
        j = j + 1;
    }
    assert(ev.subrange(0, j as int) =~= ev);
    VerifyReport { mismatches, missing, extra }
}

/// `a` comes strictly before `b` in byte order.
pub open spec fn bytes_lt(a: Seq<u8>, b: Seq<u8>) -> bool
    decreases a.len(),
{
    if a.len() == 0 {
        b.len() > 0
    } else if b.len() == 0 {
        false
    } else if a[0] != b[0] {
        a[0] < b[0]
    } else {
        bytes_lt(a.drop_first(), b.drop_first())
    }
}

fn less(a: &[u8], b: &[u8]) -> (r: bool)
    ensures
        r == bytes_lt(a@, b@),
    decreases a@.len(),
{
    if a.len() == 0 {
        return b.len() > 0;
    }
    if b.len() == 0 {
        return false;
    }
    if a[0] != b[0] {
        return a[0] < b[0];
    }
    let ra = &a[1..a.len()];
    let rb = &b[1..b.len()];
    assert(ra@ == a@.drop_first());
    assert(rb@ == b@.drop_first());
    less(ra, rb)
}

/// The directory that the paths of a manifest start with: the part before
/// the first '/' of its first path in byte order, if that path has a '/'.
pub open spec fn manifest_top_of(entries: Seq<(Seq<u8>, Seq<u8>)>, first: int) -> Option<Seq<u8>> {
    let k = entries[first].0;
    match first_index(k, 47) {
        Some(i) => Some(k.subrange(0, i)),
        None => None,
    }
}

/// Picks the directory that the manifest's paths start with, as the verify
/// command looks for it: the first path in byte order, cut at its first '/'.
/// Returns the index of that path too.
pub fn manifest_top(entries: &[(Vec<u8>, Vec<u8>)]) -> (r: Option<(usize, Option<Vec<u8>>)>)
    ensures
        entries@.len() == 0 <==> r is None,
        r is Some ==> {
            let (first, top) = r->0;
            &&& 0 <= first < entries@.len()
            &&& forall|j: int|
                0 <= j < entries@.len() ==> !bytes_lt(#[trigger] entries@[j].0@, entries@[first as int].0@)
            &&& match manifest_top_of(pairs_view(entries@), first as int) {
                Some(t) => top is Some && top->0@ == t,
                None => top is None,
            }
        },
{
    if entries.len() == 0 {
        return None;
    }
    let mut best: usize = 0;
    let mut j: usize = 1;
    proof {
        lemma_bytes_lt_irreflexive(entries@[0].0@);
    }
    while j < entries.len()
        invariant
            1 <= j <= entries@.len(),
            best < j,
            forall|m: int| 0 <= m < j ==> !bytes_lt(#[trigger] entries@[m].0@, entries@[best as int].0@),
        decreases entries@.len() - j,
    {
        if less(entries[j].0.as_slice(), entries[best].0.as_slice()) {
            proof {
                assert forall|m: int| 0 <= m < j + 1 implies !bytes_lt(
                    #[trigger] entries@[m].0@,
                    entries@[j as int].0@,
                ) by {
                    if m < j {
                        lemma_bytes_lt_trans(entries@[m].0@, entries@[j as int].0@, entries@[best as int].0@);
                    } else {
                        lemma_bytes_lt_irreflexive(entries@[m].0@);
                    }
                }
            }
            best = j;
        } else {
            proof {
                lemma_bytes_lt_irreflexive(entries@[best as int].0@);
            }
        }
        j = j + 1;
    }
    let key = entries[best].0.as_slice();
    assert(pairs_view(entries@)[best as int].0 == key@);
    let top = match find_byte(key, 47) {
        Some(i) => Some(copy_bytes(&key[0..i])),
        None => None,
    };
    Some((best, top))
}

proof fn lemma_bytes_lt_irreflexive(a: Seq<u8>)
    ensures
        !bytes_lt(a, a),
    decreases a.len(),
{
    if a.len() > 0 {
        lemma_bytes_lt_irreflexive(a.drop_first());
    }
}

/// In byte order, if `b` comes before `c` and `a` does not, then `a` does
/// not come before `b` either.
proof fn lemma_bytes_lt_trans(a: Seq<u8>, b: Seq<u8>, c: Seq<u8>)
    requires
        bytes_lt(b, c),
        !bytes_lt(a, c),
    ensures
        !bytes_lt(a, b),
    decreases a.len(),
{
    if a.len() > 0 && b.len() > 0 && c.len() > 0 && a[0] == b[0] && b[0] == c[0] {
        lemma_bytes_lt_trans(a.drop_first(), b.drop_first(), c.drop_first());
    }
}

} // verus!
