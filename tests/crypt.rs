use chacha20poly1305::aead::Aead;
use chacha20poly1305::KeyInit;
use jjtool::container::{decode_header, encode_header, FormatError, KdfCosts};
use jjtool::crypt::{
    container_file_name, decrypt, decrypted_file_name, derive_key, encrypt, open_container,
    seal_container, EncryptArgs,
};
use jjtool::error::{ConfigError, CryptError};
use jjtool::payload::{pack_payload, unpack_payload, Payload};

fn cheap_args() -> EncryptArgs {
    let mut a = EncryptArgs::new("x.bin".to_string());
    a.m_cost_kib = 64;
    a.t_cost = 1;
    a.p_cost = 1;
    a
}

fn file(ext: &[u8], data: &[u8]) -> Payload {
    Payload::File { extension: ext.to_vec(), data: data.to_vec() }
}

fn expect_file(p: Payload) -> (Vec<u8>, Vec<u8>) {
    match p {
        Payload::File { extension, data } => (extension, data),
        Payload::Directory { .. } => panic!("expected a file payload"),
    }
}

#[test]
fn hello_round_trip_with_default_costs() {
    let args = EncryptArgs::new("hello.txt".to_string());
    let mut pw = b"pw1".to_vec();
    let container = encrypt(&args, &file(b"txt", b"hello"), &mut pw).unwrap();
    assert!(pw.is_empty());
    let mut pw = b"pw1".to_vec();
    let (ext, data) = expect_file(decrypt(&container, &mut pw).unwrap());
    assert!(pw.is_empty());
    assert_eq!(ext, b"txt".to_vec());
    assert_eq!(data, b"hello".to_vec());
    let mut wrong = b"pw2".to_vec();
    assert!(matches!(decrypt(&container, &mut wrong), Err(CryptError::Authentication)));
    assert!(wrong.is_empty());
}

#[test]
fn container_layout_of_encrypt() {
    let args = EncryptArgs::new("hello.txt".to_string());
    let mut pw = b"pw1".to_vec();
    let c = encrypt(&args, &file(b"txt", b"hello"), &mut pw).unwrap();
    assert_eq!(&c[0..6], b"JJTOOL");
    assert_eq!(c[6], 2);
    assert_eq!(&c[7..11], &19456u32.to_le_bytes());
    assert_eq!(&c[11..15], &2u32.to_le_bytes());
    assert_eq!(&c[15..19], &1u32.to_le_bytes());
    // kind byte, two length bytes, "txt", "hello", and a 16-byte tag
    let ct_len = 1 + 2 + 3 + 5 + 16;
    assert_eq!(&c[59..67], &(ct_len as u64).to_le_bytes());
    assert_eq!(c.len(), 67 + ct_len);
}

#[test]
fn empty_file_round_trip() {
    let mut pw = b"secret".to_vec();
    let c = encrypt(&cheap_args(), &file(b"", b""), &mut pw).unwrap();
    let mut pw = b"secret".to_vec();
    let (ext, data) = expect_file(decrypt(&c, &mut pw).unwrap());
    assert!(ext.is_empty());
    assert!(data.is_empty());
}

#[test]
fn longest_extension_round_trip() {
    let ext = vec![b'e'; 65535];
    let data: Vec<u8> = (0..=255u8).collect();
    let mut pw = b"pw".to_vec();
    let c = encrypt(&cheap_args(), &file(&ext, &data), &mut pw).unwrap();
    let mut pw = b"pw".to_vec();
    let (e, d) = expect_file(decrypt(&c, &mut pw).unwrap());
    assert_eq!(e, ext);
    assert_eq!(d, data);
}

#[test]
fn extension_too_long_is_refused() {
    let ext = vec![b'e'; 65536];
    let mut pw = b"pw".to_vec();
    let r = encrypt(&cheap_args(), &file(&ext, b"x"), &mut pw);
    assert!(matches!(r, Err(CryptError::Config(ConfigError::NameTooLong))));
    assert!(pw.is_empty());
}

#[test]
fn directory_name_too_long_is_refused() {
    let p = Payload::Directory { name: vec![b'd'; 70000], archive: vec![1, 2, 3] };
    assert!(matches!(pack_payload(&p), Err(CryptError::Config(ConfigError::NameTooLong))));
}

#[test]
fn zero_parallelism_is_refused() {
    let mut a = cheap_args();
    a.p_cost = 0;
    let mut pw = b"pw".to_vec();
    let r = encrypt(&a, &file(b"txt", b"x"), &mut pw);
    assert!(matches!(r, Err(CryptError::Config(ConfigError::InvalidCosts))));
    assert!(pw.is_empty());
}

#[test]
fn memory_below_eight_blocks_per_lane_is_refused() {
    let salt = [7u8; 16];
    let costs = KdfCosts { m_cost_kib: 15, t_cost: 1, p_cost: 2 };
    assert!(matches!(derive_key(b"pw", &salt, costs), Err(CryptError::Config(ConfigError::InvalidCosts))));
    let costs = KdfCosts { m_cost_kib: 64, t_cost: 0, p_cost: 1 };
    assert!(matches!(derive_key(b"pw", &salt, costs), Err(CryptError::Config(ConfigError::InvalidCosts))));
    let costs = KdfCosts { m_cost_kib: u32::MAX, t_cost: 1, p_cost: u32::MAX };
    assert!(matches!(derive_key(b"pw", &salt, costs), Err(CryptError::Config(ConfigError::InvalidCosts))));
}

#[test]
fn derive_key_is_deterministic() {
    let salt = [3u8; 16];
    let costs = KdfCosts { m_cost_kib: 64, t_cost: 1, p_cost: 1 };
    let k1 = derive_key(b"correct horse", &salt, costs).unwrap();
    let k2 = derive_key(b"correct horse", &salt, costs).unwrap();
    assert_eq!(k1, k2);
    assert_eq!(k1.len(), 32);
    let other_salt = [4u8; 16];
    let k3 = derive_key(b"correct horse", &other_salt, costs).unwrap();
    assert_ne!(k1, k3);
}

#[test]
fn derive_key_matches_argon2id() {
    let salt = [9u8; 16];
    let costs = KdfCosts { m_cost_kib: 64, t_cost: 1, p_cost: 1 };
    let k = derive_key(b"pw", &salt, costs).unwrap();
    let params = argon2::Params::new(64, 1, 1, None).unwrap();
    let mut expected = [0u8; 32];
    argon2::Argon2::new(argon2::Algorithm::Argon2id, argon2::Version::V0x13, params)
        .hash_password_into(b"pw", &salt, &mut expected)
        .unwrap();
    assert_eq!(k, expected);
}

#[test]
fn every_single_bit_flip_in_ciphertext_fails() {
    let costs = KdfCosts { m_cost_kib: 64, t_cost: 1, p_cost: 1 };
    let salt = [1u8; 16];
    let nonce = [2u8; 24];
    let c = seal_container(&file(b"md", b"abc"), b"pw", costs, &salt, &nonce).unwrap();
    for byte in 67..c.len() {
        for bit in 0..8 {
            let mut damaged = c.clone();
            damaged[byte] ^= 1 << bit;
            assert!(matches!(open_container(&damaged, b"pw"), Err(CryptError::Authentication)));
        }
    }
    assert!(open_container(&c, b"pw").is_ok());
}

#[test]
fn seal_container_is_fixed_by_its_inputs() {
    let costs = KdfCosts { m_cost_kib: 64, t_cost: 1, p_cost: 1 };
    let salt = [5u8; 16];
    let nonce = [6u8; 24];
    let a = seal_container(&file(b"txt", b"hello"), b"pw", costs, &salt, &nonce).unwrap();
    let b = seal_container(&file(b"txt", b"hello"), b"pw", costs, &salt, &nonce).unwrap();
    assert_eq!(a, b);
    assert_eq!(&a[19..35], &salt);
    assert_eq!(&a[35..59], &nonce);
}

#[test]
fn unknown_version_is_refused_before_key_derivation() {
    let mut pw = b"pw".to_vec();
    let mut c = encrypt(&cheap_args(), &file(b"txt", b"data"), &mut pw).unwrap();
    c[6] = 3;
    // impossible costs: a key derivation would fail with a configuration error
    c[7..11].copy_from_slice(&0u32.to_le_bytes());
    let mut pw = b"pw".to_vec();
    assert!(matches!(decrypt(&c, &mut pw), Err(CryptError::Format(FormatError::UnsupportedVersion(3)))));
    assert!(pw.is_empty());
}

#[test]
fn bad_magic_is_refused() {
    let mut pw = b"pw".to_vec();
    let mut c = encrypt(&cheap_args(), &file(b"txt", b"data"), &mut pw).unwrap();
    c[0] = b'X';
    assert!(matches!(open_container(&c, b"pw"), Err(CryptError::Format(FormatError::BadMagic))));
}

#[test]
fn truncated_and_trailing_containers_are_refused() {
    let mut pw = b"pw".to_vec();
    let c = encrypt(&cheap_args(), &file(b"txt", b"data"), &mut pw).unwrap();
    assert!(matches!(decode_header(&c[..c.len() - 1]), Err(FormatError::Truncated)));
    assert!(matches!(decode_header(&c[..40]), Err(FormatError::Truncated)));
    assert!(matches!(decode_header(&c[..3]), Err(FormatError::Truncated)));
    let mut longer = c.clone();
    longer.push(0);
    assert!(matches!(decode_header(&longer), Err(FormatError::TrailingBytes)));
}

#[test]
fn header_round_trip() {
    let costs = KdfCosts { m_cost_kib: 19456, t_cost: 2, p_cost: 1 };
    let salt: Vec<u8> = (0..16).collect();
    let nonce: Vec<u8> = (100..124).collect();
    let ct = vec![9u8, 8, 7];
    let b = encode_header(costs, &salt, &nonce, &ct);
    assert_eq!(b.len(), 70);
    let h = decode_header(&b).unwrap();
    assert_eq!(h.version, 2);
    assert_eq!(h.costs, costs);
    assert_eq!(h.salt, salt);
    assert_eq!(h.nonce, nonce);
    assert_eq!(h.ciphertext, ct);
}

#[test]
fn legacy_container_decodes_as_file() {
    let salt = [8u8; 16];
    let nonce = [9u8; 24];
    let costs = KdfCosts { m_cost_kib: 64, t_cost: 1, p_cost: 1 };
    let key = derive_key(b"old", &salt, costs).unwrap();
    let mut plain = Vec::new();
    plain.extend_from_slice(&3u16.to_le_bytes());
    plain.extend_from_slice(b"log");
    plain.extend_from_slice(b"legacy bytes");
    let cipher = chacha20poly1305::XChaCha20Poly1305::new((&key).into());
    let ct = cipher.encrypt(chacha20poly1305::XNonce::from_slice(&nonce), plain.as_slice()).unwrap();
    let mut c = encode_header(costs, &salt, &nonce, &ct);
    c[6] = 1;
    let (ext, data) = expect_file(open_container(&c, b"old").unwrap());
    assert_eq!(ext, b"log".to_vec());
    assert_eq!(data, b"legacy bytes".to_vec());
}

#[test]
fn legacy_payload_layout() {
    let mut plain = Vec::new();
    plain.extend_from_slice(&2u16.to_le_bytes());
    plain.extend_from_slice(b"rs");
    plain.extend_from_slice(b"fn");
    let (ext, data) = expect_file(unpack_payload(1, &plain).unwrap());
    assert_eq!(ext, b"rs".to_vec());
    assert_eq!(data, b"fn".to_vec());
    assert!(matches!(unpack_payload(1, &[5]), Err(FormatError::Truncated)));
    assert!(matches!(unpack_payload(1, &[5, 0, b'a']), Err(FormatError::Truncated)));
}

#[test]
fn current_payload_errors() {
    assert!(matches!(unpack_payload(2, &[]), Err(FormatError::Truncated)));
    assert!(matches!(unpack_payload(2, &[7, 0, 0]), Err(FormatError::UnknownKind(7))));
    assert!(matches!(unpack_payload(2, &[7]), Err(FormatError::Truncated)));
    assert!(matches!(unpack_payload(2, &[7, 2, 0, b'a']), Err(FormatError::Truncated)));
    assert!(matches!(unpack_payload(2, &[0, 4, 0, b'a']), Err(FormatError::Truncated)));
    assert!(matches!(unpack_payload(2, &[1, 0, 0, 1, 2, 3]), Err(FormatError::BadArchive)));
}

#[test]
fn file_payload_layout() {
    let b = pack_payload(&file(b"txt", b"hi")).unwrap();
    assert_eq!(b, vec![0, 3, 0, b't', b'x', b't', b'h', b'i']);
}

#[test]
fn directory_round_trip() {
    let archive: Vec<u8> = (0..5000u32).map(|i| (i % 251) as u8).collect();
    let p = Payload::Directory { name: b"photos".to_vec(), archive: archive.clone() };
    let packed = pack_payload(&p).unwrap();
    assert_eq!(packed[0], 1);
    assert_eq!(&packed[1..3], &6u16.to_le_bytes());
    assert_eq!(&packed[3..9], b"photos");
    assert_eq!(zstd::decode_all(&packed[9..]).unwrap(), archive);
    assert!(packed.len() < archive.len());
    let mut pw = b"pw".to_vec();
    let mut a = cheap_args();
    a.directory = true;
    let c = encrypt(&a, &p, &mut pw).unwrap();
    let mut pw = b"pw".to_vec();
    match decrypt(&c, &mut pw).unwrap() {
        Payload::Directory { name, archive: got } => {
            assert_eq!(name, b"photos".to_vec());
            assert_eq!(got, archive);
        }
        Payload::File { .. } => panic!("expected a directory payload"),
    }
}

#[test]
fn default_output_names() {
    assert_eq!(container_file_name(b"report.pdf"), b"report.jj".to_vec());
    assert_eq!(container_file_name(b"photos"), b"photos.jj".to_vec());
    assert_eq!(container_file_name(b".profile"), b".profile.jj".to_vec());
    assert_eq!(decrypted_file_name(b"report.jj", b"pdf"), b"report.pdf".to_vec());
    assert_eq!(decrypted_file_name(b"notes.jj", b""), b"notes.out".to_vec());
    assert_eq!(decrypted_file_name(b"archive.tar.jj", b"txt"), b"archive.tar.txt".to_vec());
}

#[test]
fn fresh_salt_and_nonce_for_each_container() {
    let mut pw = b"pw".to_vec();
    let a = encrypt(&cheap_args(), &file(b"txt", b"same"), &mut pw).unwrap();
    let mut pw = b"pw".to_vec();
    let b = encrypt(&cheap_args(), &file(b"txt", b"same"), &mut pw).unwrap();
    assert_ne!(&a[19..35], &b[19..35]);
    assert_ne!(&a[35..59], &b[35..59]);
    assert_ne!(a[67..], b[67..]);
    let mut pw = b"pw".to_vec();
    assert!(decrypt(&b, &mut pw).is_ok());
}

#[test]
fn invalid_costs_win_over_password_length() {
    let salt = [1u8; 16];
    let costs = KdfCosts { m_cost_kib: 64, t_cost: 1, p_cost: 0 };
    assert!(matches!(derive_key(b"", &salt, costs), Err(CryptError::Config(ConfigError::InvalidCosts))));
}

#[test]
fn directory_payload_always_packs() {
    let p = Payload::Directory { name: vec![b'd'; 65535], archive: Vec::new() };
    let b = pack_payload(&p).unwrap();
    assert_eq!(&b[1..3], &65535u16.to_le_bytes());
    assert_eq!(zstd::decode_all(&b[3 + 65535..]).unwrap(), Vec::<u8>::new());
}
