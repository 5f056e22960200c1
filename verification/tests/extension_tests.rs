use rpgm_enc::FileExtension;
use rpgm_enc::FileType;
use rpgm_enc::RPGMakerVersion;

#[test]
fn test_file_extension_conversion() {
    assert_eq!(FileExtension::RPGMVP.convert(true, RPGMakerVersion::MV), FileExtension::PNG);
    assert_eq!(FileExtension::RPGMVO.convert(true, RPGMakerVersion::MV), FileExtension::OGG);
    assert_eq!(FileExtension::RPGMVM.convert(true, RPGMakerVersion::MV), FileExtension::M4A);
    assert_eq!(FileExtension::PNG_.convert(true, RPGMakerVersion::MZ), FileExtension::PNG);
    assert_eq!(FileExtension::OGG_.convert(true, RPGMakerVersion::MZ), FileExtension::OGG);
    assert_eq!(FileExtension::M4A_.convert(true, RPGMakerVersion::MZ), FileExtension::M4A);

    assert_eq!(FileExtension::PNG.convert(false, RPGMakerVersion::MV), FileExtension::RPGMVP);
    assert_eq!(FileExtension::OGG.convert(false, RPGMakerVersion::MV), FileExtension::RPGMVO);
    assert_eq!(FileExtension::M4A.convert(false, RPGMakerVersion::MV), FileExtension::RPGMVM);

    assert_eq!(FileExtension::PNG.convert(false, RPGMakerVersion::MZ), FileExtension::PNG_);
    assert_eq!(FileExtension::OGG.convert(false, RPGMakerVersion::MZ), FileExtension::OGG_);
    assert_eq!(FileExtension::M4A.convert(false, RPGMakerVersion::MZ), FileExtension::M4A_);

    assert_eq!(FileExtension::RPGMVP.convert(false, RPGMakerVersion::MZ), FileExtension::RPGMVP);
    assert_eq!(FileExtension::PNG_.convert(false, RPGMakerVersion::MV), FileExtension::PNG_);
    assert_eq!(FileExtension::RPGMVO.convert(false, RPGMakerVersion::MZ), FileExtension::RPGMVO);
    assert_eq!(FileExtension::OGG_.convert(false, RPGMakerVersion::MV), FileExtension::OGG_);
}

#[test]
fn test_file_extension_from_str() {
    // Normal extensions
    assert_eq!(FileExtension::from_str("png"), Some(FileExtension::PNG));
    assert_eq!(FileExtension::from_str("ogg"), Some(FileExtension::OGG));
    assert_eq!(FileExtension::from_str("m4a"), Some(FileExtension::M4A));

    // MV extensions
    assert_eq!(FileExtension::from_str("rpgmvp"), Some(FileExtension::RPGMVP));
    assert_eq!(FileExtension::from_str("rpgmvo"), Some(FileExtension::RPGMVO));
    assert_eq!(FileExtension::from_str("rpgmvm"), Some(FileExtension::RPGMVM));

    // MZ extensions
    assert_eq!(FileExtension::from_str("png_"), Some(FileExtension::PNG_));
    assert_eq!(FileExtension::from_str("ogg_"), Some(FileExtension::OGG_));
    assert_eq!(FileExtension::from_str("m4a_"), Some(FileExtension::M4A_));

    // Case insensitivity
    assert_eq!(FileExtension::from_str("PNG"), Some(FileExtension::PNG));
    assert_eq!(FileExtension::from_str("RPGMVP"), Some(FileExtension::RPGMVP));
    assert_eq!(FileExtension::from_str("PNG_"), Some(FileExtension::PNG_));

    // Invalid extension
    assert_eq!(FileExtension::from_str("invalid"), None);
}

#[test]
fn test_file_extension_properties() {
    // is_encrypted
    assert!(FileExtension::RPGMVP.is_encrypted());
    assert!(FileExtension::PNG_.is_encrypted());
    assert!(!FileExtension::PNG.is_encrypted());

    // get_mime_type
    assert_eq!(FileExtension::PNG.get_mime_type(), "image/png");
    assert_eq!(FileExtension::RPGMVP.get_mime_type(), "image/png");
    assert_eq!(FileExtension::PNG_.get_mime_type(), "image/png");
    assert_eq!(FileExtension::OGG.get_mime_type(), "audio/ogg");
    assert_eq!(FileExtension::M4A.get_mime_type(), "audio/m4a");

    // get_file_type
    assert_eq!(FileExtension::PNG.get_file_type(), FileType::Image);
    assert_eq!(FileExtension::RPGMVP.get_file_type(), FileType::Image);
    assert_eq!(FileExtension::PNG_.get_file_type(), FileType::Image);
    assert_eq!(FileExtension::OGG.get_file_type(), FileType::Audio);
    assert_eq!(FileExtension::RPGMVO.get_file_type(), FileType::Audio);
    assert_eq!(FileExtension::OGG_.get_file_type(), FileType::Audio);
}

#[test]
fn test_mixed_case_classification() {
    // a mixed-case encrypted name classifies like its lowercase form
    let upper = FileExtension::from_str("RPGMVP").unwrap();
    let lower = FileExtension::from_str("rpgmvp").unwrap();
    assert_eq!(upper, lower);
    assert_eq!(upper.get_mime_type(), "image/png");
    assert!(upper.is_encrypted());
}

#[test]
fn test_to_str_round_trip() {
    let all = [
        FileExtension::PNG,
        FileExtension::OGG,
        FileExtension::M4A,
        FileExtension::RPGMVP,
        FileExtension::RPGMVO,
        FileExtension::RPGMVM,
        FileExtension::PNG_,
        FileExtension::OGG_,
        FileExtension::M4A_,
    ];
    for e in all {
        assert_eq!(FileExtension::from_str(e.to_str()), Some(e));
    }
}

#[test]
fn test_convert_round_trip_mv() {
    // encrypted -> plain -> encrypted is the identity for MV names
    // under the MV generation
    for e in [FileExtension::RPGMVP, FileExtension::RPGMVO, FileExtension::RPGMVM] {
        let plain = e.convert(true, RPGMakerVersion::MV);
        assert_eq!(plain.convert(false, RPGMakerVersion::MV), e);
    }
    // an MZ name re-encrypted under MV lands on the equivalent MV name
    let plain = FileExtension::PNG_.convert(true, RPGMakerVersion::MV);
    let back = plain.convert(false, RPGMakerVersion::MV);
    assert_eq!(back, FileExtension::RPGMVP);
    assert!(back.is_encrypted());
    assert_eq!(back.get_file_type(), FileExtension::PNG_.get_file_type());
}

#[test]
fn test_convert_encrypted_fixed_points() {
    // encrypted names are fixed points of encryption, under either
    // generation
    for e in [
        FileExtension::RPGMVP,
        FileExtension::RPGMVO,
        FileExtension::RPGMVM,
        FileExtension::PNG_,
        FileExtension::OGG_,
        FileExtension::M4A_,
    ] {
        assert_eq!(e.convert(false, RPGMakerVersion::MV), e);
        assert_eq!(e.convert(false, RPGMakerVersion::MZ), e);
    }
}
