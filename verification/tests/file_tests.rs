use rpgm_enc::Decrypter;
use rpgm_enc::FileExtension;
use rpgm_enc::RPGMakerVersion;
use rpgm_enc::RPGFile;

/// An obfuscated PNG buffer for a chosen key: the true 16-byte PNG
/// header plus payload, run through `encrypt`.
fn encrypted_png(key_hex: &str) -> Vec<u8> {
    let key = rpgm_enc::Key::new(key_hex).unwrap();
    let decrypter = Decrypter::new(Some(key));
    let mut plain: Vec<u8> = vec![
        0x89, 0x50, 0x4e, 0x47, 0x0d, 0x0a, 0x1a, 0x0a, 0x00, 0x00, 0x00, 0x0d, 0x49, 0x48, 0x44,
        0x52,
    ];
    plain.extend_from_slice(b"png payload bytes");
    decrypter.encrypt(&plain).unwrap()
}

/// An obfuscated OGG buffer for the same key.
fn encrypted_ogg(key_hex: &str) -> Vec<u8> {
    let key = rpgm_enc::Key::new(key_hex).unwrap();
    let decrypter = Decrypter::new(Some(key));
    let mut plain: Vec<u8> = vec![0x4f, 0x67, 0x67, 0x53];
    plain.extend_from_slice(&[0u8; 23]);
    plain.extend_from_slice(b"ogg audio payload");
    decrypter.encrypt(&plain).unwrap()
}

#[test]
fn test_ogg_conversion() {
    let test_png = encrypted_png("deadbeef");
    let key = Decrypter::detect_key_from_file(&test_png).expect("Failed to detect key from PNG file");
    println!("Detected encryption key: {}", key.as_str());

    let test_data = encrypted_ogg("deadbeef");
    println!(
        "Original encrypted data first 32 bytes: {:02X?}",
        &test_data[..32.min(test_data.len())]
    );

    {
        let mut rpg_file = RPGFile::new(String::from("test.ogg_")).unwrap();
        rpg_file.set_version(RPGMakerVersion::MV);
        rpg_file.set_content(test_data.to_vec());

        assert!(rpg_file.is_encrypted());
        assert_eq!(rpg_file.extension(), Some(FileExtension::OGG_));

        rpg_file.convert_extension(true);
        assert_eq!(rpg_file.extension(), Some(FileExtension::OGG));

        rpg_file.convert_extension(false);
        assert_eq!(rpg_file.extension(), Some(FileExtension::RPGMVO));
    }

    {
        let mut rpg_file = RPGFile::new(String::from("test.ogg_")).unwrap();
        rpg_file.set_version(RPGMakerVersion::MZ);
        rpg_file.set_content(test_data.to_vec());

        assert!(rpg_file.is_encrypted());
        assert_eq!(rpg_file.extension(), Some(FileExtension::OGG_));

        rpg_file.convert_extension(true);
        assert_eq!(rpg_file.extension(), Some(FileExtension::OGG));

        rpg_file.convert_extension(false);
        assert_eq!(rpg_file.extension(), Some(FileExtension::OGG_));
    }
}

#[test]
fn test_png_decrypt_and_restore() {
    // the decrypt-and-restore pipeline over an obfuscated PNG buffer
    let test_png = encrypted_png("deadbeef");
    let key = Decrypter::detect_key_from_file(&test_png).expect("Failed to detect key from PNG file");

    let mut rpg_file = RPGFile::new(String::from("test.png_")).unwrap();
    rpg_file.set_content(test_png.to_vec());

    assert!(rpg_file.is_encrypted());
    assert!(rpg_file.is_image());
    assert_eq!(rpg_file.extension(), Some(FileExtension::PNG_));

    let decrypter = Decrypter::new(Some(key));
    let decrypted = decrypter.decrypt(rpg_file.content().unwrap()).unwrap();
    let restored = decrypter.restore_header(&decrypted, FileExtension::PNG).unwrap();

    // the restored buffer carries the PNG signature again
    assert_eq!(&restored[..8], &[0x89, 0x50, 0x4e, 0x47, 0x0d, 0x0a, 0x1a, 0x0a]);

    rpg_file.convert_extension(true);
    rpg_file.set_content(restored);

    assert_eq!(rpg_file.extension(), Some(FileExtension::PNG));
    assert!(!rpg_file.is_encrypted());
    assert_eq!(rpg_file.mime_type(), Some("image/png"));
    assert_eq!(rpg_file.path(), "test.png");
}

#[test]
fn test_rpg_file_basics() {
    let mut f = RPGFile::new(String::from("audio/se/step.rpgmvo")).unwrap();
    assert_eq!(f.path(), "audio/se/step.rpgmvo");
    assert_eq!(f.get_version(), RPGMakerVersion::MV);
    assert!(f.content().is_none());
    assert_eq!(f.extension(), Some(FileExtension::RPGMVO));
    assert!(f.is_encrypted());
    assert!(!f.is_image());
    assert_eq!(f.mime_type(), Some("audio/ogg"));

    f.set_content(vec![1, 2, 3]);
    assert_eq!(f.content().unwrap(), &[1, 2, 3]);

    f.set_version(RPGMakerVersion::MZ);
    assert_eq!(f.get_version(), RPGMakerVersion::MZ);
}

#[test]
fn test_convert_extension_rewrites_path() {
    let mut f = RPGFile::new(String::from("img/pictures/actor.rpgmvp")).unwrap();
    f.convert_extension(true);
    assert_eq!(f.path(), "img/pictures/actor.png");

    f.set_version(RPGMakerVersion::MZ);
    f.convert_extension(false);
    assert_eq!(f.path(), "img/pictures/actor.png_");
}

#[test]
fn test_convert_extension_unknown_is_noop() {
    let mut f = RPGFile::new(String::from("notes/readme.txt")).unwrap();
    f.convert_extension(true);
    assert_eq!(f.path(), "notes/readme.txt");

    let mut g = RPGFile::new(String::from("no_extension")).unwrap();
    g.convert_extension(false);
    assert_eq!(g.path(), "no_extension");

    assert_eq!(f.extension(), None);
    assert!(!f.is_encrypted());
    assert_eq!(f.mime_type(), None);
}

#[test]
fn test_hidden_file_has_no_extension() {
    let f = RPGFile::new(String::from("assets/.png")).unwrap();
    assert_eq!(f.extension(), None);
}
