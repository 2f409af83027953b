//! Encryption and decryption of containers: key derivation, sealing, opening,
//! and the wiping of secrets on every path.

use crate::container::{
    decode_header, encode_header, header_bytes, lemma_header_bytes_len, lemma_parse_header_bytes,
    magic, parse_header, supported_version, FormatError, HeaderView, KdfCosts, CURRENT_VERSION,
    FIXED_LEN, LEGACY_VERSION, NONCE_LEN, SALT_LEN,
};
use crate::error::{ConfigError, CryptError};
use crate::payload::{
    legacy_packed, lemma_unpack_legacy, lemma_unpack_packed, pack_payload, packed, payload_fits,
    unpack_payload, unpack_view, unpacks_to, Payload, PayloadView, MAX_LABEL_LEN,
};
use crate::primitives::{
    aead_len_ok, argon2_costs_valid, max_sealed_plaintext, argon2id_hash, argon2id_key, os_fill, seals_to, wipe_bytes,
    wipe_key, xchacha_decrypt, xchacha_encrypt, xchacha_seal,
};
use crate::text::push_all;
use vstd::prelude::*;

verus! {

/// Settings of an encryption: where to read and write, whether the input is
/// a directory, and the Argon2 costs.
pub struct EncryptArgs {
    pub input: String,
    pub output: Option<String>,
    pub directory: bool,
    pub m_cost_kib: u32,
    pub t_cost: u32,
    pub p_cost: u32,
}

/// Settings of a decryption: where to read, and where to write.
pub struct DecryptArgs {
    pub input: String,
    pub output: Option<String>,
}

impl EncryptArgs {
    pub open spec fn spec_costs(&self) -> KdfCosts {
        KdfCosts { m_cost_kib: self.m_cost_kib, t_cost: self.t_cost, p_cost: self.p_cost }
    }

    /// The settings for `input` with the default costs.
    pub fn new(input: String) -> (r: EncryptArgs)
        ensures
            r.input@ == input@,
            (r.output is None),
            !r.directory,
            r.spec_costs() == (KdfCosts { m_cost_kib: 19456, t_cost: 2, p_cost: 1 }),
    {
        let c = KdfCosts::default_costs();
        EncryptArgs {
            input,
            output: None,
            directory: false,
            m_cost_kib: c.m_cost_kib,
            t_cost: c.t_cost,
            p_cost: c.p_cost,
        }
    }

    pub fn costs(&self) -> (r: KdfCosts)
        ensures
            r == self.spec_costs(),
    {
        KdfCosts { m_cost_kib: self.m_cost_kib, t_cost: self.t_cost, p_cost: self.p_cost }
    }
}

/// The key that `password`, `salt` and `costs` give, or why there is none.
pub open spec fn derived_key(password: Seq<u8>, salt: Seq<u8>, costs: KdfCosts) -> Result<
    Seq<u8>,
    CryptError,
> {
    if !argon2_costs_valid(costs) {
        Err(CryptError::Config(ConfigError::InvalidCosts))
    } else if password.len() > u32::MAX {
        Err(CryptError::Crypto)
    } else {
        Ok(argon2id_key(password, salt, costs.m_cost_kib, costs.t_cost, costs.p_cost))
    }
}

pub open spec fn key_view(r: Result<[u8; 32], CryptError>) -> Result<Seq<u8>, CryptError> {
    match r {
        Ok(k) => Ok(k@),
        Err(e) => Err(e),
    }
}

/// The container that sealing `p` gives, or why there is none.
pub open spec fn sealed(
    p: PayloadView,
    password: Seq<u8>,
    costs: KdfCosts,
    salt: Seq<u8>,
    nonce: Seq<u8>,
) -> Result<Seq<u8>, CryptError> {
    if !payload_fits(p) {
        Err(CryptError::Config(ConfigError::NameTooLong))
    } else {
        match derived_key(password, salt, costs) {
            Err(e) => Err(e),
            Ok(key) => if !aead_len_ok(packed(p).len() as int) {
                Err(CryptError::Crypto)
            } else {
                Ok(
                    header_bytes(
                        HeaderView {
                            version: CURRENT_VERSION,
                            costs,
                            salt,
                            nonce,
                            ciphertext: xchacha_seal(key, nonce, packed(p)),
                        },
                    ),
                )
            },
        }
    }
}

pub open spec fn bytes_view(r: Result<Vec<u8>, CryptError>) -> Result<Seq<u8>, CryptError> {
    match r {
        Ok(b) => Ok(b@),
        Err(e) => Err(e),
    }
}

pub open spec fn payload_view(r: Result<Payload, CryptError>) -> Result<PayloadView, CryptError> {
    match r {
        Ok(p) => Ok(p@),
        Err(e) => Err(e),
    }
}

/// `opened` is what the cipher gives for `ciphertext`: the one plaintext that
/// seals to it, or `None` where there is none.
pub open spec fn opens_as(
    key: Seq<u8>,
    nonce: Seq<u8>,
    ciphertext: Seq<u8>,
    opened: Option<Seq<u8>>,
) -> bool {
    &&& opened is Some ==> seals_to(key, nonce, opened->0, ciphertext)
    &&& forall|x: Seq<u8>| #[trigger] seals_to(key, nonce, x, ciphertext) ==> opened == Some(x)
}

pub open spec fn format_to_crypt(r: Result<PayloadView, FormatError>) -> Result<
    PayloadView,
    CryptError,
> {
    match r {
        Ok(p) => Ok(p),
        Err(e) => Err(CryptError::Format(e)),
    }
}

/// Decrypting the container `b` with `password` gives `r`. A ciphertext
/// longer than any sealing can produce fails authentication.
pub open spec fn opened_with(b: Seq<u8>, password: Seq<u8>, r: Result<PayloadView, CryptError>) -> bool {
    match parse_header(b) {
        Err(e) => r == Err::<PayloadView, CryptError>(CryptError::Format(e)),
        Ok(h) => match derived_key(password, h.salt, h.costs) {
            Err(e) => r == Err::<PayloadView, CryptError>(e),
            Ok(key) => if h.ciphertext.len() > max_sealed_plaintext() + 16 {
                r == Err::<PayloadView, CryptError>(CryptError::Authentication)
            } else {
                exists|opened: Option<Seq<u8>>|
                    opens_as(key, h.nonce, h.ciphertext, opened) && match opened {
                        None => r == Err::<PayloadView, CryptError>(CryptError::Authentication),
                        Some(x) => exists|u: Result<PayloadView, FormatError>|
                            unpacks_to(h.version, x, u) && r == format_to_crypt(u),
                    }
            },
        },
    }
}

/// Whether Argon2 accepts these costs.
pub fn costs_valid(c: KdfCosts) -> (r: bool)
    ensures
        r == argon2_costs_valid(c),
{
    c.m_cost_kib >= 8 && c.m_cost_kib as u64 >= 8 * c.p_cost as u64 && c.t_cost >= 1 && 1 <= c.p_cost
        && c.p_cost <= 0xFFFFFF
}

/// Derives the 32-byte key for `password` and `salt` with Argon2id.
pub fn derive_key(password: &[u8], salt: &[u8], costs: KdfCosts) -> (r: Result<[u8; 32], CryptError>)
    requires
        salt@.len() == SALT_LEN,
    ensures
        key_view(r) == derived_key(password@, salt@, costs),
{
    if !costs_valid(costs) {
        return Err(CryptError::Config(ConfigError::InvalidCosts));
    }
    if password.len() > u32::MAX as usize {
        return Err(CryptError::Crypto);
    }
    match argon2id_hash(password, salt, costs) {
        Ok(key) => Ok(key),
        Err(_) => Err(CryptError::Config(ConfigError::InvalidCosts)),
    }
}

/// Seals `payload` under a key derived from `password`, with the given salt
/// and nonce, into a container of the current version.
pub fn seal_container(
    payload: &Payload,
    password: &[u8],
    costs: KdfCosts,
    salt: &[u8],
    nonce: &[u8],
) -> (r: Result<Vec<u8>, CryptError>)
    requires
        salt@.len() == SALT_LEN,
        nonce@.len() == NONCE_LEN,
    ensures
        bytes_view(r) == sealed(payload@, password@, costs, salt@, nonce@),
        r is Ok ==> r->Ok_0@.len() == FIXED_LEN + packed(payload@).len() + 16,
{
    let plaintext = match pack_payload(payload) {
        Ok(b) => b,
        Err(e) => {
            return Err(e);
        },
    };
    let mut key = match derive_key(password, salt, costs) {
        Ok(k) => k,
        Err(e) => {
            return Err(e);
        },
    };
    let mut plaintext = plaintext;
    if plaintext.len() as u64 > 64 * (u32::MAX as u64 - 1) {
        wipe_key(&mut key);
        wipe_bytes(&mut plaintext);
        return Err(CryptError::Crypto);
    }
    let sealed_bytes = xchacha_encrypt(&key, nonce, plaintext.as_slice());
    wipe_key(&mut key);
    wipe_bytes(&mut plaintext);
    match sealed_bytes {
        Ok(ct) => {
            let out = encode_header(costs, salt, nonce, ct.as_slice());
            proof {
                lemma_header_bytes_len(
                    HeaderView { version: CURRENT_VERSION, costs, salt: salt@, nonce: nonce@, ciphertext: ct@ },
                );
            }
            Ok(out)
        },
        Err(_) => Err(CryptError::Crypto),
    }
}

/// Encrypts `payload` with a fresh random salt and nonce. The password is
/// wiped on every path.
pub fn encrypt(args: &EncryptArgs, payload: &Payload, password: &mut Vec<u8>) -> (r: Result<
    Vec<u8>,
    CryptError,
>)
    ensures
        final(password)@.len() == 0,
        !payload_fits(payload@) ==> r == Err::<Vec<u8>, CryptError>(
            CryptError::Config(ConfigError::NameTooLong),
        ),
        payload_fits(payload@) && !argon2_costs_valid(args.spec_costs()) ==> r == Err::<
            Vec<u8>,
            CryptError,
        >(CryptError::Config(ConfigError::InvalidCosts)),
        r == Err::<Vec<u8>, CryptError>(CryptError::Crypto) || exists|salt: Seq<u8>, nonce: Seq<u8>|
            salt.len() == SALT_LEN && nonce.len() == NONCE_LEN && #[trigger] sealed(
                payload@,
                old(password)@,
                args.spec_costs(),
                salt,
                nonce,
            ) == bytes_view(r),
        r is Ok ==> r->Ok_0@.len() == FIXED_LEN + packed(payload@).len() + 16,
{
    let costs = args.costs();
    let ghost pw0 = password@;
    let ghost any_salt = Seq::new(SALT_LEN as nat, |i: int| 0u8);
    let ghost any_nonce = Seq::new(NONCE_LEN as nat, |i: int| 0u8);
    let fits = match payload {
        Payload::File { extension, .. } => extension.len() <= MAX_LABEL_LEN,
        Payload::Directory { name, .. } => name.len() <= MAX_LABEL_LEN,
    };
    if !fits {
        wipe_bytes(password);
        assert(sealed(payload@, pw0, costs, any_salt, any_nonce) == Err::<Seq<u8>, CryptError>(
            CryptError::Config(ConfigError::NameTooLong),
        ));
        return Err(CryptError::Config(ConfigError::NameTooLong));
    }
    if !costs_valid(costs) {
        wipe_bytes(password);
        assert(sealed(payload@, pw0, costs, any_salt, any_nonce) == Err::<Seq<u8>, CryptError>(
            CryptError::Config(ConfigError::InvalidCosts),
        ));
        return Err(CryptError::Config(ConfigError::InvalidCosts));
    }
    let mut salt: Vec<u8> = vec![0u8; SALT_LEN];
    let mut nonce: Vec<u8> = vec![0u8; NONCE_LEN];
    if os_fill(&mut salt).is_err() || os_fill(&mut nonce).is_err() {
        wipe_bytes(password);
        return Err(CryptError::Crypto);
    }
    let r = seal_container(payload, password.as_slice(), costs, salt.as_slice(), nonce.as_slice());
    wipe_bytes(password);
    assert(sealed(payload@, old(password)@, args.spec_costs(), salt@, nonce@) == bytes_view(r));
    r
}

/// Opens a container with `password` and unpacks what it holds.
pub fn open_container(b: &[u8], password: &[u8]) -> (r: Result<Payload, CryptError>)
    ensures
        opened_with(b@, password@, payload_view(r)),
{
    let h = match decode_header(b) {
        Ok(h) => h,
        Err(e) => {
            return Err(CryptError::Format(e));
        },
    };
    let mut key = match derive_key(password, h.salt.as_slice(), h.costs) {
        Ok(k) => k,
        Err(e) => {
            return Err(e);
        },
    };
    if h.ciphertext.len() as u64 > 64 * (u32::MAX as u64 - 1) + 16 {
        wipe_key(&mut key);
        return Err(CryptError::Authentication);
    }
    let opened = xchacha_decrypt(&key, h.nonce.as_slice(), h.ciphertext.as_slice());
    wipe_key(&mut key);
    let ghost key_seq = derived_key(password@, h.salt@, h.costs)->Ok_0;
    assert(parse_header(b@) == Ok::<HeaderView, FormatError>(h@));
    assert(derived_key(password@, h@.salt, h@.costs) == Ok::<Seq<u8>, CryptError>(key_seq));
    match opened {
        Err(_) => {
            let r: Result<Payload, CryptError> = Err(CryptError::Authentication);
            proof {
                let opened_none: Option<Seq<u8>> = None;
                assert(opens_as(key_seq, h@.nonce, h@.ciphertext, opened_none));
            }
            r
        },
        Ok(plaintext) => {
            let ghost pt = Some(plaintext@);
            assert(opens_as(key_seq, h@.nonce, h@.ciphertext, pt));
            let mut plaintext = plaintext;
            let u = unpack_payload(h.version, plaintext.as_slice());
            let ghost opened_text = plaintext@;
            wipe_bytes(&mut plaintext);
            let r: Result<Payload, CryptError> = match u {
                Ok(p) => Ok(p),
                Err(e) => Err(CryptError::Format(e)),
            };
            proof {
                let uv = unpack_view(u);
                assert(unpacks_to(h@.version, opened_text, uv));
                assert(payload_view(r) == format_to_crypt(uv));
            }
            r
        },
    }
}

/// Decrypts a container. The password is wiped on every path.
pub fn decrypt(container: &[u8], password: &mut Vec<u8>) -> (r: Result<Payload, CryptError>)
    ensures
        final(password)@.len() == 0,
        opened_with(container@, old(password)@, payload_view(r)),
{
    let r = open_container(container, password.as_slice());
    wipe_bytes(password);
    r
}

/// Decrypting, with the same password, a container that sealing built gives
/// the sealed payload back: a file with its bytes and extension, or a
/// directory with its name and archive. `container` is what `seal_container`
/// or `encrypt` returned, with the length they state.
pub proof fn lemma_decrypt_sealed(
    p: PayloadView,
    password: Seq<u8>,
    costs: KdfCosts,
    salt: Seq<u8>,
    nonce: Seq<u8>,
    container: Seq<u8>,
    r: Result<PayloadView, CryptError>,
)
    requires
        salt.len() == SALT_LEN,
        nonce.len() == NONCE_LEN,
        sealed(p, password, costs, salt, nonce) == Ok::<Seq<u8>, CryptError>(container),
        container.len() == FIXED_LEN + packed(p).len() + 16,
        opened_with(container, password, r),
    ensures
        r == Ok::<PayloadView, CryptError>(p),
{
    let key = derived_key(password, salt, costs)->Ok_0;
    let ct = xchacha_seal(key, nonce, packed(p));
    let h = HeaderView { version: CURRENT_VERSION, costs, salt, nonce, ciphertext: ct };
    lemma_header_bytes_len(h);
    lemma_parse_header_bytes(h);
    assert(seals_to(key, nonce, packed(p), ct));
    let opened = choose|opened: Option<Seq<u8>>|
        opens_as(key, nonce, ct, opened) && match opened {
            None => r == Err::<PayloadView, CryptError>(CryptError::Authentication),
            Some(x) => exists|u: Result<PayloadView, FormatError>|
                unpacks_to(CURRENT_VERSION, x, u) && r == format_to_crypt(u),
        };
    assert(opened == Some(packed(p)));
    let u = choose|u: Result<PayloadView, FormatError>|
        unpacks_to(CURRENT_VERSION, packed(p), u) && r == format_to_crypt(u);
    lemma_unpack_packed(p, u);
}

/// A container whose version byte is neither the legacy nor the current one
/// is refused as such, whatever the password, before any key is derived.
pub proof fn lemma_unknown_version_refused(
    b: Seq<u8>,
    password: Seq<u8>,
    r: Result<PayloadView, CryptError>,
)
    requires
        b.len() >= 7,
        b.subrange(0, 6) == magic(),
        !supported_version(b[6]),
        opened_with(b, password, r),
    ensures
        r == Err::<PayloadView, CryptError>(
            CryptError::Format(FormatError::UnsupportedVersion(b[6])),
        ),
{
}

/// Deriving a key twice from the same password, salt and costs gives the
/// same 32 bytes, or the same error.
pub proof fn lemma_derive_key_deterministic(
    password: Seq<u8>,
    salt: Seq<u8>,
    costs: KdfCosts,
    first: Result<[u8; 32], CryptError>,
    second: Result<[u8; 32], CryptError>,
)
    requires
        key_view(first) == derived_key(password, salt, costs),
        key_view(second) == derived_key(password, salt, costs),
    ensures
        key_view(first) == key_view(second),
        first is Ok ==> first->Ok_0@ == second->Ok_0@ && first->Ok_0@.len() == 32,
{
}

/// A successful decryption returns only what was sealed under the key that
/// this password derives: the ciphertext in the container is exactly the
/// sealing of a plaintext that unpacks to the result.
pub proof fn lemma_decrypt_authentic(b: Seq<u8>, password: Seq<u8>, r: Result<PayloadView, CryptError>)
    requires
        opened_with(b, password, r),
        r is Ok,
    ensures
        parse_header(b) is Ok,
        derived_key(password, parse_header(b)->Ok_0.salt, parse_header(b)->Ok_0.costs) is Ok,
        exists|x: Seq<u8>|
            #[trigger] seals_to(
                derived_key(password, parse_header(b)->Ok_0.salt, parse_header(b)->Ok_0.costs)->Ok_0,
                parse_header(b)->Ok_0.nonce,
                x,
                parse_header(b)->Ok_0.ciphertext,
            ) && unpacks_to(
                parse_header(b)->Ok_0.version,
                x,
                Ok::<PayloadView, FormatError>(r->Ok_0),
            ),
{
    let h = parse_header(b)->Ok_0;
    let key = derived_key(password, h.salt, h.costs)->Ok_0;
    assert(h.ciphertext.len() <= max_sealed_plaintext() + 16);
    let opened = choose|opened: Option<Seq<u8>>|
        opens_as(key, h.nonce, h.ciphertext, opened) && match opened {
            None => r == Err::<PayloadView, CryptError>(CryptError::Authentication),
            Some(x) => exists|u: Result<PayloadView, FormatError>|
                unpacks_to(h.version, x, u) && r == format_to_crypt(u),
        };
    let x = opened->0;
    let u = choose|u: Result<PayloadView, FormatError>|
        unpacks_to(h.version, x, u) && r == format_to_crypt(u);
    assert(u == Ok::<PayloadView, FormatError>(r->Ok_0));
    assert(seals_to(key, h.nonce, x, h.ciphertext));
}

/// A legacy container, version 1, whose ciphertext seals, under the key its
/// password derives, a length-prefixed extension and the file bytes with no
/// kind byte, decrypts with that password to that file.
pub proof fn lemma_decrypt_legacy(
    extension: Seq<u8>,
    data: Seq<u8>,
    password: Seq<u8>,
    costs: KdfCosts,
    salt: Seq<u8>,
    nonce: Seq<u8>,
    ciphertext: Seq<u8>,
    r: Result<PayloadView, CryptError>,
)
    requires
        extension.len() <= MAX_LABEL_LEN,
        salt.len() == SALT_LEN,
        nonce.len() == NONCE_LEN,
        ciphertext.len() == legacy_packed(extension, data).len() + 16,
        derived_key(password, salt, costs) is Ok,
        seals_to(
            derived_key(password, salt, costs)->Ok_0,
            nonce,
            legacy_packed(extension, data),
            ciphertext,
        ),
        opened_with(
            header_bytes(
                HeaderView { version: LEGACY_VERSION, costs, salt, nonce, ciphertext },
            ),
            password,
            r,
        ),
    ensures
        r == Ok::<PayloadView, CryptError>(PayloadView::File { extension, data }),
{
    let key = derived_key(password, salt, costs)->Ok_0;
    let pt = legacy_packed(extension, data);
    let h = HeaderView { version: LEGACY_VERSION, costs, salt, nonce, ciphertext };
    lemma_parse_header_bytes(h);
    let opened = choose|opened: Option<Seq<u8>>|
        opens_as(key, nonce, ciphertext, opened) && match opened {
            None => r == Err::<PayloadView, CryptError>(CryptError::Authentication),
            Some(x) => exists|u: Result<PayloadView, FormatError>|
                unpacks_to(LEGACY_VERSION, x, u) && r == format_to_crypt(u),
        };
    assert(opened == Some(pt));
    let u = choose|u: Result<PayloadView, FormatError>|
        unpacks_to(LEGACY_VERSION, pt, u) && r == format_to_crypt(u);
    lemma_unpack_legacy(extension, data, u);
}

/// The position of the last '.' in a file name.
pub open spec fn last_dot(name: Seq<u8>) -> Option<int> {
    if exists|i: int| 0 <= i < name.len() && name[i] == 46 {
        Some(choose|i: int| 0 <= i < name.len() && name[i] == 46 && forall|j: int| i < j < name.len() ==> name[j] != 46)
    } else {
        None
    }
}

/// A file name without its extension: the part before the last '.', unless
/// that '.' opens the name.
pub open spec fn stem_of(name: Seq<u8>) -> Seq<u8> {
    match last_dot(name) {
        Some(i) => if i == 0 {
            name
        } else {
            name.subrange(0, i)
        },
        None => name,
    }
}

/// The default name of a container: the input's stem with the extension "jj".
pub open spec fn container_name_of(name: Seq<u8>) -> Seq<u8> {
    stem_of(name) + seq![46u8, 106u8, 106u8]
}

/// The default name of a decrypted file: the container's stem with the
/// recovered extension, or "out" where the file had none.
pub open spec fn decrypted_name_of(name: Seq<u8>, extension: Seq<u8>) -> Seq<u8> {
    stem_of(name) + seq![46u8] + if extension.len() == 0 {
        seq![111u8, 117u8, 116u8]
    } else {
        extension
    }
}

fn stem(name: &[u8]) -> (r: &[u8])
    ensures
        r@ == stem_of(name@),
{
    let mut i: usize = name.len();
    while i > 0
        invariant
            i <= name@.len(),
            forall|j: int| i <= j < name@.len() ==> name@[j] != 46,
        decreases i,
    {
        if name[i - 1] == 46 {
            proof {
                let k = last_dot(name@)->0;
                assert(name@[i - 1] == 46);
                if k < i - 1 {
                    assert(name@[i - 1] != 46);
                }
            }
            if i - 1 == 0 {
                return name;
            }
            return &name[0..i - 1];
        }
        i = i - 1;
    }
    name
}

/// The name a container gets when none is given.
pub fn container_file_name(input_name: &[u8]) -> (r: Vec<u8>)
    ensures
        r@ == container_name_of(input_name@),
{
    let mut r: Vec<u8> = Vec::new();
    push_all(&mut r, stem(input_name));
    r.push(46);
    r.push(106);
    r.push(106);
    assert(r@ =~= container_name_of(input_name@));
    r
}

/// The name a decrypted file gets, beside its container, when none is given.
pub fn decrypted_file_name(container_name: &[u8], extension: &[u8]) -> (r: Vec<u8>)
    ensures
        r@ == decrypted_name_of(container_name@, extension@),
{
    let mut r: Vec<u8> = Vec::new();
    push_all(&mut r, stem(container_name));
    r.push(46);
    if extension.len() == 0 {
        r.push(111);
        r.push(117);
        r.push(116);
    } else {
        push_all(&mut r, extension);
    }
    assert(r@ =~= decrypted_name_of(container_name@, extension@));
    r
}

} // verus!
