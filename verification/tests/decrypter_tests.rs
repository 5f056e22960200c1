use rpgm_enc::Decrypter;
use rpgm_enc::Error;
use rpgm_enc::FileExtension;
use rpgm_enc::Key;

#[test]
fn test_verify_fake_header() {
    let key = Key::new("deadbeef").unwrap();
    let decrypter = Decrypter::new(Some(key));
    let fake_header = decrypter.build_fake_header();
    assert!(decrypter.verify_fake_header(&fake_header));
}

#[test]
fn test_encryption_decryption() {
    let key = Key::new("deadbeef").unwrap();
    let decrypter = Decrypter::new(Some(key));
    let test_data = b"Hello, World!";

    let encrypted = decrypter.encrypt(test_data).unwrap();
    let decrypted = decrypter.decrypt(&encrypted).unwrap();

    assert_eq!(&decrypted, test_data);
}

#[test]
fn test_fake_header_bytes() {
    let decrypter = Decrypter::new(None);
    let fake_header = decrypter.build_fake_header();
    assert_eq!(
        fake_header,
        vec![
            0x52, 0x50, 0x47, 0x4d, 0x56, 0x00, 0x00, 0x00, 0x00, 0x03, 0x01, 0x00, 0x00, 0x00,
            0x00, 0x00
        ]
    );
    assert_eq!(decrypter.get_header_len(), 16);
}

#[test]
fn test_encrypt_layout() {
    let key = Key::new("deadbeef").unwrap();
    let decrypter = Decrypter::new(Some(key));
    let data = b"Hello, World!";
    let encrypted = decrypter.encrypt(data).unwrap();
    assert_eq!(encrypted.len(), 16 + data.len());
    assert_eq!(&encrypted[..16], &decrypter.build_fake_header()[..]);
    // the first four payload bytes are XORed with the key
    assert_eq!(encrypted[16], b'H' ^ 0xde);
    assert_eq!(encrypted[17], b'e' ^ 0xad);
    assert_eq!(encrypted[18], b'l' ^ 0xbe);
    assert_eq!(encrypted[19], b'l' ^ 0xef);
    // beyond the key the payload is unchanged
    assert_eq!(encrypted[20], b'o');
}

#[test]
fn test_decrypt_empty_buffer() {
    let decrypter = Decrypter::new(None);
    assert!(matches!(decrypter.decrypt(&[]), Err(Error::EmptyFile)));
}

#[test]
fn test_encrypt_empty_buffer() {
    let decrypter = Decrypter::new(None);
    assert!(matches!(decrypter.encrypt(&[]), Err(Error::EmptyFile)));
}

#[test]
fn test_decrypt_short_buffer() {
    let decrypter = Decrypter::new(None);
    // non-empty but shorter than the fake header
    assert!(matches!(decrypter.decrypt(&[1, 2, 3]), Err(Error::InvalidHeader)));
}

#[test]
fn test_decrypt_wrong_header() {
    let decrypter = Decrypter::new(None);
    let data = [0u8; 32];
    assert!(matches!(decrypter.decrypt(&data), Err(Error::InvalidHeader)));
}

#[test]
fn test_decrypt_without_key_strips_header() {
    let decrypter = Decrypter::new(None);
    let data = b"some plain content";
    let encrypted = decrypter.encrypt(data).unwrap();
    let decrypted = decrypter.decrypt(&encrypted).unwrap();
    assert_eq!(&decrypted[..], &data[..]);
}

#[test]
fn test_restore_header_empty_buffer() {
    let decrypter = Decrypter::new(None);
    assert!(matches!(
        decrypter.restore_header(&[], FileExtension::PNG),
        Err(Error::EmptyFile)
    ));
}

#[test]
fn test_restore_header_png_unchanged() {
    // a buffer that already starts with the 8-byte PNG signature comes
    // back unchanged
    let decrypter = Decrypter::new(None);
    let mut data = vec![0x89, 0x50, 0x4e, 0x47, 0x0d, 0x0a, 0x1a, 0x0a];
    data.extend_from_slice(b"rest of the image");
    let restored = decrypter.restore_header(&data, FileExtension::PNG).unwrap();
    assert_eq!(restored, data);
}

#[test]
fn test_restore_header_prepends_png() {
    let decrypter = Decrypter::new(None);
    let data = b"image data without header";
    let restored = decrypter.restore_header(data, FileExtension::PNG).unwrap();
    assert_eq!(restored.len(), 16 + data.len());
    assert_eq!(
        &restored[..16],
        &[
            0x89, 0x50, 0x4e, 0x47, 0x0d, 0x0a, 0x1a, 0x0a, 0x00, 0x00, 0x00, 0x0d, 0x49, 0x48,
            0x44, 0x52
        ]
    );
    assert_eq!(&restored[16..], &data[..]);
}

#[test]
fn test_restore_header_ogg_length() {
    // the OGG table holds 27 bytes: "OggS" and 23 zero bytes
    let decrypter = Decrypter::new(None);
    let data = b"audio payload";
    let restored = decrypter.restore_header(data, FileExtension::OGG_).unwrap();
    assert_eq!(restored.len(), 27 + data.len());
    assert_eq!(&restored[..4], &[0x4f, 0x67, 0x67, 0x53]);
    assert!(restored[4..27].iter().all(|b| *b == 0));
    assert_eq!(&restored[27..], &data[..]);
}

#[test]
fn test_restore_header_strips_fake_header() {
    // a buffer still carrying the fake header has it replaced by the
    // true header
    let decrypter = Decrypter::new(None);
    let mut data = decrypter.build_fake_header();
    data.extend_from_slice(b"m4a payload");
    let restored = decrypter.restore_header(&data, FileExtension::M4A).unwrap();
    assert_eq!(restored.len(), 16 + b"m4a payload".len());
    assert_eq!(
        &restored[..16],
        &[
            0x00, 0x00, 0x00, 0x20, 0x66, 0x74, 0x79, 0x70, 0x4d, 0x34, 0x41, 0x20, 0x00, 0x00,
            0x00, 0x00
        ]
    );
    assert_eq!(&restored[16..], b"m4a payload");
}

#[test]
fn test_restore_header_m4a_unchanged() {
    let decrypter = Decrypter::new(None);
    let mut data = vec![0x00, 0x00, 0x00, 0x20];
    data.extend_from_slice(b"ftyp");
    data.extend_from_slice(b"M4A trailer");
    let restored = decrypter.restore_header(&data, FileExtension::M4A_).unwrap();
    assert_eq!(restored, data);
}

#[test]
fn test_detect_key_from_png_file() {
    // build an obfuscated PNG: encrypt a buffer that starts with the
    // true 16-byte PNG header, then let detection recover the key
    let key = Key::new("deadbeef").unwrap();
    let decrypter = Decrypter::new(Some(key));
    let mut plain: Vec<u8> = vec![
        0x89, 0x50, 0x4e, 0x47, 0x0d, 0x0a, 0x1a, 0x0a, 0x00, 0x00, 0x00, 0x0d, 0x49, 0x48, 0x44,
        0x52,
    ];
    plain.extend_from_slice(b"the rest of the png image");
    let encrypted = decrypter.encrypt(&plain).unwrap();

    let detected = Decrypter::detect_key_from_file(&encrypted).unwrap();
    // the recovered key repeats the real key bytes, padded with zeros
    // over the rest of the known plaintext
    assert_eq!(detected.as_str(), "deadbeef000000000000000000000000");

    let decrypter2 = Decrypter::new(Some(detected));
    let decrypted = decrypter2.decrypt(&encrypted).unwrap();
    assert_eq!(decrypted, plain);
}

#[test]
fn test_detect_key_from_json_text() {
    // under 32 bytes, so the text heuristics are reached
    let data = b"{\"encryptionKey\":\"deadbeef\"}";
    let key = Decrypter::detect_key_from_file(data).unwrap();
    assert_eq!(key.as_str(), "deadbeef");
    assert_eq!(key.as_bytes(), &[0xde, 0xad, 0xbe, 0xef]);
}

#[test]
fn test_detect_key_failure() {
    let data = b"no key in here";
    assert!(Decrypter::detect_key_from_file(data).is_none());
}

#[test]
fn test_from_file() {
    let data = b"{\"encryptionKey\":\"00ff\"}";
    let decrypter = Decrypter::from_file(data).unwrap();
    assert_eq!(decrypter.key.as_ref().unwrap().as_str(), "00ff");
    assert!(Decrypter::from_file(b"nothing").is_none());
}

#[test]
fn test_byte_to_hex() {
    assert_eq!(Decrypter::byte_to_hex(0x00), "00");
    assert_eq!(Decrypter::byte_to_hex(0x0f), "0f");
    assert_eq!(Decrypter::byte_to_hex(0xa5), "a5");
    assert_eq!(Decrypter::byte_to_hex(0xff), "ff");
}

#[test]
fn test_check_hex_chars() {
    assert!(Decrypter::check_hex_chars("deadBEEF0123"));
    assert!(Decrypter::check_hex_chars(""));
    assert!(!Decrypter::check_hex_chars("xyz"));
    assert!(!Decrypter::check_hex_chars("dead beef"));
}

#[test]
fn test_helper_show_bits() {
    assert_eq!(Decrypter::helper_show_bits(0x80), "10000000");
    assert_eq!(Decrypter::helper_show_bits(0x01), "00000001");
    assert_eq!(Decrypter::helper_show_bits(0xff), "11111111");
    assert_eq!(Decrypter::helper_show_bits(0x00), "00000000");
    assert_eq!(Decrypter::helper_show_bits(0xa5), "10100101");
}

#[test]
fn test_xor_prefix_bounds() {
    // a key shorter than the fake header obfuscates only its own length
    let key = Key::new("0102").unwrap();
    let decrypter = Decrypter::new(Some(key));
    let data = [9u8; 20];
    let encrypted = decrypter.encrypt(&data).unwrap();
    assert_eq!(encrypted[16], (9 ^ 1));
    assert_eq!(encrypted[17], (9 ^ 2));
    assert!(encrypted[18..].iter().all(|b| *b == 9));

    // a key longer than the fake header reaches only header_len bytes
    let long_hex = "01".repeat(20);
    let key = Key::new(&long_hex).unwrap();
    let decrypter = Decrypter::new(Some(key));
    let encrypted = decrypter.encrypt(&data).unwrap();
    assert!(encrypted[16..32].iter().all(|b| *b == (9 ^ 1)));
    assert!(encrypted[32..].iter().all(|b| *b == 9));
}

#[test]
fn test_cloned_decrypter_agrees() {
    let key = Key::new("deadbeef").unwrap();
    let decrypter = Decrypter::new(Some(key));
    let copy = decrypter.clone();
    let data = b"shared across workers";
    let a = decrypter.encrypt(data).unwrap();
    let b = copy.encrypt(data).unwrap();
    assert_eq!(a, b);
    assert_eq!(copy.decrypt(&a).unwrap(), data.to_vec());
}

#[test]
fn test_decrypt_ignoring_fake_header() {
    // with the check switched off, any non-empty buffer is accepted:
    // the header-length prefix is stripped without being verified
    let mut decrypter = Decrypter::new(None);
    decrypter.set_ignore_fake_header(true);
    let mut data = vec![0u8; 16];
    data.extend_from_slice(b"payload");
    let decrypted = decrypter.decrypt(&data).unwrap();
    assert_eq!(&decrypted, b"payload");

    // a buffer shorter than the header yields an empty result
    let short = decrypter.decrypt(&[1, 2, 3]).unwrap();
    assert!(short.is_empty());
}

#[test]
fn test_error_messages() {
    assert_eq!(Error::EmptyFile.message(), "file is empty");
    assert_eq!(Error::InvalidHeader.message(), "invalid file header");
    assert_eq!(Error::InvalidKey.message(), "invalid encryption key");
    assert_eq!(
        Error::KeyDetectionFailed.message(),
        "failed to detect encryption key"
    );
}
