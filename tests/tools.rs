use jjtool::compression::{
    check_extension, compressed_name, decompressed_name, detect_algorithm, sniff_magic,
    strip_suffix, Algorithm as Codec,
};
use jjtool::format::Format;
use jjtool::hash::{
    ensure_decimal_supported, eq_hex, hash_bytes, manifest_entry, parse_algorithm, parse_manifest,
    compare_with_manifest, manifest_top, Algorithm, HashError, ManifestError,
};
use jjtool::image::{
    ext_for, parse_hex_rgb, run, ConvertArgs, Filter, ImageCmd, ImageError, ImageFormat,
    ImagePlan, ResizeMode, ScaleArgs,
};
use jjtool::keygen::{generate_key, Algorithm as KeyAlgorithm, KeygenArgs, KeygenError};
use jjtool::steganography::{embed_data, extract_data, frame_message, StegoError};

#[test]
fn codec_extensions() {
    assert_eq!(Codec::Zstd.extension(), "zst");
    assert_eq!(Codec::Lz4.extension(), "lz4");
    assert_eq!(Codec::Brotli.extension(), "br");
    assert_eq!(Codec::Snappy.extension(), "sz");
    assert_eq!(check_extension(b"br"), Some(Codec::Brotli));
    assert_eq!(check_extension(b"sz"), Some(Codec::Snappy));
    assert_eq!(check_extension(b"ZST"), None);
    assert_eq!(check_extension(b""), None);
}

#[test]
fn codec_magic_numbers() {
    assert_eq!(sniff_magic(&[0x28, 0xB5, 0x2F, 0xFD, 0]), Some(Codec::Zstd));
    assert_eq!(sniff_magic(&[0x04, 0x22, 0x4D, 0x18]), Some(Codec::Lz4));
    assert_eq!(sniff_magic(&[0x73, 0x4E, 0x61, 0x50, 0x70, 0x59]), Some(Codec::Snappy));
    assert_eq!(sniff_magic(&[0x28, 0xB5, 0x2F]), None);
    assert_eq!(sniff_magic(&[1, 2, 3, 4]), None);
    assert_eq!(detect_algorithm(Some(Codec::Brotli), &[0x28, 0xB5, 0x2F, 0xFD], b"lz4"), Some(Codec::Brotli));
    assert_eq!(detect_algorithm(None, &[0x28, 0xB5, 0x2F, 0xFD], b"lz4"), Some(Codec::Zstd));
    assert_eq!(detect_algorithm(None, &[], b"lz4"), Some(Codec::Lz4));
    assert_eq!(detect_algorithm(None, &[], b"txt"), None);
}

#[test]
fn codec_file_names() {
    assert_eq!(compressed_name(b"notes.txt", Codec::Zstd), b"notes.txt.zst".to_vec());
    assert_eq!(strip_suffix(b"notes.txt.zst", Codec::Zstd), b"notes.txt".to_vec());
    assert_eq!(strip_suffix(b"notes.txt.zst", Codec::Lz4), b"notes.txt.zst".to_vec());
    assert_eq!(strip_suffix(b".br", Codec::Brotli), b"".to_vec());
    assert_eq!(decompressed_name(b"a.sz", Codec::Snappy), b"a".to_vec());
    assert_eq!(decompressed_name(b"a.bin", Codec::Snappy), b"a.bin.out".to_vec());
}

#[test]
fn hash_algorithm_names() {
    assert_eq!(Algorithm::Blake3.name(), "blake3");
    assert_eq!(Algorithm::Sha256.name(), "sha256");
    assert_eq!(Algorithm::Crc32c.name(), "crc32c");
    assert_eq!(parse_algorithm(b"  SHA256 "), Ok(Algorithm::Sha256));
    assert_eq!(parse_algorithm(b"md5"), Ok(Algorithm::Md5));
    assert_eq!(parse_algorithm(b"Crc32C"), Ok(Algorithm::Crc32c));
    assert_eq!(parse_algorithm(b"sha512"), Err(HashError::UnknownAlgorithm));
}

#[test]
fn decimal_only_for_crc() {
    assert!(ensure_decimal_supported(Algorithm::Crc32, true).is_ok());
    assert!(ensure_decimal_supported(Algorithm::Crc32c, true).is_ok());
    assert_eq!(ensure_decimal_supported(Algorithm::Md5, true), Err(HashError::DecimalUnsupported));
    assert!(ensure_decimal_supported(Algorithm::Md5, false).is_ok());
}

#[test]
fn hex_comparison() {
    assert!(eq_hex(b" abcDEF\n", b"ABCdef"));
    assert!(!eq_hex(b"abc", b"abd"));
    assert!(!eq_hex(b"abc", b"abcd"));
}

#[test]
fn known_digests() {
    assert_eq!(hash_bytes(b"abc", Algorithm::Sha256, false), "BA7816BF8F01CFEA414140DE5DAE2223B00361A396177A9CB410FF61F20015AD");
    assert_eq!(hash_bytes(b"", Algorithm::Md5, false), "D41D8CD98F00B204E9800998ECF8427E");
    assert_eq!(hash_bytes(b"abc", Algorithm::Sha1, false), "A9993E364706816ABA3E25717850C26C9CD0D89D");
    assert_eq!(hash_bytes(b"", Algorithm::Blake3, false), "AF1349B9F5F9A1A6A0404DEA36DCC9499BCB25C9ADC112B7CC9A93CAE41F3262");
    assert_eq!(hash_bytes(b"123456789", Algorithm::Crc32, false), "CBF43926");
    assert_eq!(hash_bytes(b"123456789", Algorithm::Crc32, true), "3421780262");
    assert_eq!(hash_bytes(b"123456789", Algorithm::Crc32c, false), "E3069283");
    assert_eq!(hash_bytes(b"", Algorithm::Crc32, false), "00000000");
    assert_eq!(hash_bytes(b"", Algorithm::Crc32, true), "0");
}

#[test]
fn manifest_lines() {
    let e = manifest_entry(Algorithm::Md5, b"top/sub\\f.txt", b"ABCD");
    assert_eq!(e, b"#md5#top\\sub\\f.txt\nABCD *top/sub/f.txt\n".to_vec());
}

#[test]
fn format_extensions() {
    assert_eq!(Format::from_extension(b"JSON"), Some(Format::Json));
    assert_eq!(Format::from_extension(b"bson"), Some(Format::Bson));
    assert_eq!(Format::from_extension(b"bin"), Some(Format::Bincode));
    assert_eq!(Format::from_extension(b"BinCode"), Some(Format::Bincode));
    assert_eq!(Format::from_extension(b"yaml"), None);
    assert_eq!(Format::Bincode.name(), "BINCODE");
    assert_eq!(Format::Bincode.default_extension(), "bin");
    assert_eq!(Format::Json.default_extension(), "json");
}

#[test]
fn image_extensions_and_colours() {
    assert_eq!(ext_for(ImageFormat::Jpeg), "jpg");
    assert_eq!(ext_for(ImageFormat::Tiff), "tiff");
    assert_eq!(parse_hex_rgb(b"FFFFFF"), Ok((255, 255, 255)));
    assert_eq!(parse_hex_rgb(b" #1a2B3c "), Ok((0x1a, 0x2b, 0x3c)));
    assert_eq!(parse_hex_rgb(b"##000080"), Ok((0, 0, 128)));
    assert_eq!(parse_hex_rgb(b"+F0000"), Ok((15, 0, 0)));
    assert_eq!(parse_hex_rgb(b"FFF"), Err(ImageError::InvalidColor));
    assert_eq!(parse_hex_rgb(b"GG0000"), Err(ImageError::InvalidColor));
}

fn convert(format: ImageFormat, quality: u8, background: &str) -> ImageCmd {
    ImageCmd::Convert(ConvertArgs {
        input: "in.png".to_string(),
        format,
        output: None,
        quality,
        background: background.to_string(),
    })
}

#[test]
fn image_commands_are_checked() {
    match run(convert(ImageFormat::Jpeg, 0, "#000000")) {
        Ok(ImagePlan::Convert { quality, background, format, .. }) => {
            assert_eq!(quality, 1);
            assert_eq!(background, Some((0, 0, 0)));
            assert_eq!(format, ImageFormat::Jpeg);
        }
        _ => panic!("expected a conversion"),
    }
    match run(convert(ImageFormat::Jpeg, 250, "FFFFFF")) {
        Ok(ImagePlan::Convert { quality, .. }) => assert_eq!(quality, 100),
        _ => panic!("expected a conversion"),
    }
    assert!(matches!(run(convert(ImageFormat::Jpeg, 90, "nope")), Err(ImageError::InvalidColor)));
    match run(convert(ImageFormat::Png, 90, "nope")) {
        Ok(ImagePlan::Convert { background, .. }) => assert_eq!(background, None),
        _ => panic!("expected a conversion"),
    }
    let scale = |percent, width, height| {
        ImageCmd::Scale(ScaleArgs {
            input: "in.png".to_string(),
            percent,
            width,
            height,
            mode: ResizeMode::Fit,
            filter: Filter::Lanczos3,
            output: None,
        })
    };
    assert!(matches!(run(scale(None, None, None)), Err(ImageError::NoTargetSize)));
    assert!(matches!(run(scale(Some(50), None, None)), Ok(ImagePlan::Scale(_))));
    assert!(matches!(run(scale(None, Some(10), None)), Ok(ImagePlan::Scale(_))));
}

#[test]
fn key_file_names() {
    let a = KeygenArgs { output: "keys/id".to_string(), algorithm: KeyAlgorithm::Ed25519, bits: 0, pem_public: true };
    let f = generate_key(&a).unwrap();
    assert_eq!(f.private_pem, b"keys/id.pem".to_vec());
    assert_eq!(f.public_ssh, b"keys/id.pub".to_vec());
    assert_eq!(f.public_pem, Some(b"keys/id.pub.pem".to_vec()));
    let b = KeygenArgs { output: "k".to_string(), algorithm: KeyAlgorithm::Rsa, bits: 1024, pem_public: false };
    assert!(matches!(generate_key(&b), Err(KeygenError::RsaBitsTooSmall)));
    let c = KeygenArgs { output: "k".to_string(), algorithm: KeyAlgorithm::Rsa, bits: 2048, pem_public: false };
    assert_eq!(generate_key(&c).unwrap().public_pem, None);
}

#[test]
fn stego_round_trip() {
    let mut pixels: Vec<u8> = (0..200u32).map(|i| (i * 7 % 256) as u8).collect();
    let original = pixels.clone();
    let framed = frame_message(b"hi!").unwrap();
    assert_eq!(framed, vec![0, 0, 0, 3, b'h', b'i', b'!']);
    embed_data(&mut pixels, &framed).unwrap();
    for i in 0..pixels.len() {
        assert_eq!(pixels[i] & 0xFE, original[i] & 0xFE);
        if i >= framed.len() * 8 {
            assert_eq!(pixels[i], original[i]);
        }
    }
    assert_eq!(extract_data(&pixels).unwrap(), b"hi!".to_vec());
}

#[test]
fn stego_errors() {
    let mut small = vec![0u8; 16];
    assert_eq!(embed_data(&mut small, &[1, 2, 3]), Err(StegoError::TooLarge));
    assert_eq!(small, vec![0u8; 16]);
    assert_eq!(extract_data(&[0u8; 31]), Err(StegoError::TooSmall));
    let mut pixels = vec![0u8; 40];
    embed_data(&mut pixels, &[0, 0, 0, 9]).unwrap();
    assert_eq!(extract_data(&pixels), Err(StegoError::ExceedsCapacity));
    assert_eq!(extract_data(&[0u8; 32]), Ok(vec![]));
}

fn lines(text: &str) -> Vec<Vec<u8>> {
    text.lines().map(|l| l.as_bytes().to_vec()).collect()
}

#[test]
fn manifest_round_trip_of_entries() {
    let mut text = Vec::new();
    text.extend(manifest_entry(Algorithm::Sha1, b"top\\a.txt", b"AA"));
    text.extend(manifest_entry(Algorithm::Sha1, b"top/b.txt", b"BB"));
    let m = parse_manifest(&lines(&String::from_utf8(text).unwrap())).unwrap();
    assert_eq!(m.algorithm, Algorithm::Sha1);
    assert_eq!(
        m.entries,
        vec![(b"top/a.txt".to_vec(), b"AA".to_vec()), (b"top/b.txt".to_vec(), b"BB".to_vec())]
    );
}

#[test]
fn manifest_lone_digest_after_header() {
    let m = parse_manifest(&lines("#MD5#dir\\x.bin\r\n  0123abcd  \n\n")).unwrap();
    assert_eq!(m.algorithm, Algorithm::Md5);
    assert_eq!(m.entries, vec![(b"dir/x.bin".to_vec(), b"0123abcd".to_vec())]);
}

#[test]
fn manifest_errors() {
    assert_eq!(parse_manifest(&lines("#sha1\nAA *x")).err(), Some(ManifestError::BadHeader(1)));
    assert_eq!(parse_manifest(&lines("#sha1#x\nAA BB")).err(), Some(ManifestError::BadBody(2)));
    assert_eq!(parse_manifest(&lines("AA")).err(), Some(ManifestError::UnexpectedLine(1)));
    assert_eq!(parse_manifest(&lines("#whirlpool#x\nAA")).err(), Some(ManifestError::UnknownAlgorithm));
    assert_eq!(parse_manifest(&lines("AA *x")).err(), Some(ManifestError::MissingAlgorithm));
    assert_eq!(parse_manifest(&lines("")).err(), Some(ManifestError::MissingAlgorithm));
}

#[test]
fn manifest_first_header_names_the_algorithm() {
    let m = parse_manifest(&lines("#crc32#a\n1 *a\n#sha1#b\n2 *b\nAA  *a")).unwrap();
    assert_eq!(m.algorithm, Algorithm::Crc32);
    assert_eq!(m.entries.len(), 3);
    assert_eq!(m.entries[2], (b"a".to_vec(), b"AA".to_vec()));
}

fn pair(k: &str, d: &str) -> (Vec<u8>, Vec<u8>) {
    (k.as_bytes().to_vec(), d.as_bytes().to_vec())
}

#[test]
fn manifest_comparison() {
    let entries = vec![pair("t/a", "AA"), pair("t/b", "BB"), pair("t/c", "CC"), pair("t/a", "A1"), pair("t/c", "C2")];
    let found = vec![pair("t/a", " a1 "), pair("t/b", "B0"), pair("t/d", "DD")];
    let r = compare_with_manifest(&entries, &found);
    assert_eq!(r.mismatches, vec![(b"t/b".to_vec(), b"BB".to_vec(), b"B0".to_vec())]);
    assert_eq!(r.missing, vec![b"t/c".to_vec()]);
    assert_eq!(r.extra, vec![b"t/d".to_vec()]);
    assert!(!r.ok());
    let clean = compare_with_manifest(&[pair("x", "ab")], &[pair("x", "AB")]);
    assert!(clean.ok());
}

#[test]
fn manifest_top_directory() {
    let entries = vec![pair("top/z", "1"), pair("top/a/b", "2"), pair("top/m", "3")];
    let (first, top) = manifest_top(&entries).unwrap();
    assert_eq!(first, 1);
    assert_eq!(top, Some(b"top".to_vec()));
    let (_, none) = manifest_top(&[pair("file.txt", "1")]).unwrap();
    assert_eq!(none, None);
    assert!(manifest_top(&[]).is_none());
}

#[test]
fn unicode_white_space_is_trimmed() {
    assert_eq!(parse_hex_rgb(b"\x0bFFFFFF"), Ok((255, 255, 255)));
    assert_eq!(parse_hex_rgb("\u{a0}#102030\u{3000}".as_bytes()), Ok((16, 32, 48)));
    assert_eq!(parse_algorithm(b"\x0bsha256"), Ok(Algorithm::Sha256));
    assert_eq!(parse_algorithm("\u{85}md5\u{2009}".as_bytes()), Ok(Algorithm::Md5));
    assert!(eq_hex("\u{2028}abc".as_bytes(), b"ABC\x0c"));
    assert_eq!(parse_hex_rgb("FF\u{a0}FFF".as_bytes()), Err(ImageError::InvalidColor));
}

#[test]
fn manifest_body_with_unicode_space_is_refused() {
    assert_eq!(
        parse_manifest(&lines("#sha1#x\nAA\u{a0}BB")).err(),
        Some(ManifestError::BadBody(2))
    );
    let m = parse_manifest(&lines("#sha1#x\n\u{3000}AABB\u{a0}")).unwrap();
    assert_eq!(m.entries, vec![(b"x".to_vec(), b"AABB".to_vec())]);
}

#[test]
fn digest_text_lengths() {
    assert_eq!(hash_bytes(b"x", Algorithm::Blake3, false).len(), 64);
    assert_eq!(hash_bytes(b"x", Algorithm::Md5, false).len(), 32);
    assert_eq!(hash_bytes(b"x", Algorithm::Sha1, false).len(), 40);
    assert_eq!(hash_bytes(b"x", Algorithm::Sha256, false).len(), 64);
    assert_eq!(hash_bytes(b"x", Algorithm::Crc32c, false).len(), 8);
}
