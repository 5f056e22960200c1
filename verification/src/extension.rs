//! The closed set of asset file extensions: three true formats, each
//! under a plain name and two encrypted naming schemes, and the
//! classification and conversion rules over them.

use vstd::prelude::*;

verus! {

/// The engine generation, which selects the encrypted naming scheme
/// that `FileExtension::convert` produces.
#[derive(Debug, Clone, Copy, PartialEq, Eq, Structural, Default)]
pub enum RPGMakerVersion {
    /// The generation whose encrypted names are distinct six-letter words.
    #[default]
    MV,
    /// The generation whose encrypted names add a trailing underscore.
    MZ,
}

/// The true format behind an extension.
#[derive(Debug, Clone, Copy, PartialEq, Eq, Structural)]
pub enum FileType {
    Image,
    Audio,
}

/// One of the nine known extension names.
#[derive(Debug, Clone, Copy, PartialEq, Eq, Structural)]
#[allow(non_camel_case_types)]
pub enum FileExtension {
    // Plain extensions
    PNG,
    OGG,
    M4A,
    // Encrypted MV extensions
    RPGMVP,
    RPGMVO,
    RPGMVM,
    // Encrypted MZ extensions
    PNG_,
    OGG_,
    M4A_,
}

/// ASCII case folding on a character's code.
pub open spec fn lower_u(u: u32) -> u32 {
    if 65 <= u && u <= 90 {  // 'A'..='Z'
        (u + 32) as u32
    } else {
        u
    }
}

/// True when `s` equals `t` after ASCII case folding of `s`.
pub open spec fn matches_lower(s: Seq<char>, t: Seq<char>) -> bool {
    s.len() == t.len() && forall|i: int|
        0 <= i < s.len() ==> lower_u(#[trigger] s[i] as u32) == t[i] as u32
}

/// The tag named by `s`, compared case-insensitively; `None` for any
/// string outside the closed set.
pub open spec fn ext_of(s: Seq<char>) -> Option<FileExtension> {
    if matches_lower(s, "png"@) {
        Some(FileExtension::PNG)
    } else if matches_lower(s, "ogg"@) {
        Some(FileExtension::OGG)
    } else if matches_lower(s, "m4a"@) {
        Some(FileExtension::M4A)
    } else if matches_lower(s, "rpgmvp"@) {
        Some(FileExtension::RPGMVP)
    } else if matches_lower(s, "rpgmvo"@) {
        Some(FileExtension::RPGMVO)
    } else if matches_lower(s, "rpgmvm"@) {
        Some(FileExtension::RPGMVM)
    } else if matches_lower(s, "png_"@) {
        Some(FileExtension::PNG_)
    } else if matches_lower(s, "ogg_"@) {
        Some(FileExtension::OGG_)
    } else if matches_lower(s, "m4a_"@) {
        Some(FileExtension::M4A_)
    } else {
        None
    }
}

/// The canonical (lowercase) name of each tag.
pub open spec fn ext_str(e: FileExtension) -> Seq<char> {
    match e {
        FileExtension::PNG => "png"@,
        FileExtension::OGG => "ogg"@,
        FileExtension::M4A => "m4a"@,
        FileExtension::RPGMVP => "rpgmvp"@,
        FileExtension::RPGMVO => "rpgmvo"@,
        FileExtension::RPGMVM => "rpgmvm"@,
        FileExtension::PNG_ => "png_"@,
        FileExtension::OGG_ => "ogg_"@,
        FileExtension::M4A_ => "m4a_"@,
    }
}

/// Whether the tag is one of the six encrypted names.
pub open spec fn is_encrypted_ext(e: FileExtension) -> bool {
    match e {
        FileExtension::RPGMVP | FileExtension::RPGMVO | FileExtension::RPGMVM
        | FileExtension::PNG_ | FileExtension::OGG_ | FileExtension::M4A_ => true,
        _ => false,
    }
}

/// The MIME type of each tag.
pub open spec fn mime_of(e: FileExtension) -> Seq<char> {
    match e {
        FileExtension::PNG | FileExtension::RPGMVP | FileExtension::PNG_ => "image/png"@,
        FileExtension::OGG | FileExtension::RPGMVO | FileExtension::OGG_ => "audio/ogg"@,
        FileExtension::M4A | FileExtension::RPGMVM | FileExtension::M4A_ => "audio/m4a"@,
    }
}

/// The true format of each tag.
pub open spec fn file_type_of(e: FileExtension) -> FileType {
    match e {
        FileExtension::PNG | FileExtension::RPGMVP | FileExtension::PNG_ => FileType::Image,
        _ => FileType::Audio,
    }
}

/// What `FileExtension::convert` returns: decrypting maps any encrypted
/// name to its plain counterpart and leaves plain names unchanged;
/// encrypting leaves encrypted names unchanged and maps plain names to
/// the generation's scheme.
pub open spec fn convert_ext(e: FileExtension, to_normal: bool, version: RPGMakerVersion) -> FileExtension {
    if to_normal {
        match e {
            FileExtension::RPGMVP | FileExtension::PNG_ => FileExtension::PNG,
            FileExtension::RPGMVO | FileExtension::OGG_ => FileExtension::OGG,
            FileExtension::RPGMVM | FileExtension::M4A_ => FileExtension::M4A,
            _ => e,
        }
    } else if is_encrypted_ext(e) {
        e
    } else {
        match (e, version) {
            (FileExtension::PNG, RPGMakerVersion::MZ) => FileExtension::PNG_,
            (FileExtension::PNG, RPGMakerVersion::MV) => FileExtension::RPGMVP,
            (FileExtension::OGG, RPGMakerVersion::MZ) => FileExtension::OGG_,
            (FileExtension::OGG, RPGMakerVersion::MV) => FileExtension::RPGMVO,
            (FileExtension::M4A, RPGMakerVersion::MZ) => FileExtension::M4A_,
            (FileExtension::M4A, RPGMakerVersion::MV) => FileExtension::RPGMVM,
            _ => e,
        }
    }
}

impl FileExtension {
    /// Classifies an extension string, case-insensitively.
    pub fn from_str(ext: &str) -> (r: Option<FileExtension>)
        ensures
            r == ext_of(ext@),
    {
        let cs = crate::strutil::str_chars(ext);
        if eq_lower(&cs, "png") {
            Some(FileExtension::PNG)
        } else if eq_lower(&cs, "ogg") {
            Some(FileExtension::OGG)
        } else if eq_lower(&cs, "m4a") {
            Some(FileExtension::M4A)
        } else if eq_lower(&cs, "rpgmvp") {
            Some(FileExtension::RPGMVP)
        } else if eq_lower(&cs, "rpgmvo") {
            Some(FileExtension::RPGMVO)
        } else if eq_lower(&cs, "rpgmvm") {
            Some(FileExtension::RPGMVM)
        } else if eq_lower(&cs, "png_") {
            Some(FileExtension::PNG_)
        } else if eq_lower(&cs, "ogg_") {
            Some(FileExtension::OGG_)
        } else if eq_lower(&cs, "m4a_") {
            Some(FileExtension::M4A_)
        } else {
            None
        }
    }

    /// The canonical name of this tag.
    pub fn to_str(&self) -> (r: &'static str)
        ensures
            r@ == ext_str(*self),
    {
        match self {
            FileExtension::PNG => "png",
            FileExtension::OGG => "ogg",
            FileExtension::M4A => "m4a",
            FileExtension::RPGMVP => "rpgmvp",
            FileExtension::RPGMVO => "rpgmvo",
            FileExtension::RPGMVM => "rpgmvm",
            FileExtension::PNG_ => "png_",
            FileExtension::OGG_ => "ogg_",
            FileExtension::M4A_ => "m4a_",
        }
    }

    /// Whether this tag is one of the encrypted names.
    pub fn is_encrypted(&self) -> (r: bool)
        ensures
            r == is_encrypted_ext(*self),
    {
        match self {
            FileExtension::RPGMVP | FileExtension::RPGMVO | FileExtension::RPGMVM
            | FileExtension::PNG_ | FileExtension::OGG_ | FileExtension::M4A_ => true,
            _ => false,
        }
    }

    /// The MIME type of this tag.
    pub fn get_mime_type(&self) -> (r: &'static str)
        ensures
            r@ == mime_of(*self),
    {
        match self {
            FileExtension::PNG | FileExtension::RPGMVP | FileExtension::PNG_ => "image/png",
            FileExtension::OGG | FileExtension::RPGMVO | FileExtension::OGG_ => "audio/ogg",
            FileExtension::M4A | FileExtension::RPGMVM | FileExtension::M4A_ => "audio/m4a",
        }
    }

    /// The true format of this tag.
    pub fn get_file_type(&self) -> (r: FileType)
        ensures
            r == file_type_of(*self),
    {
        match self {
            FileExtension::PNG | FileExtension::RPGMVP | FileExtension::PNG_ => FileType::Image,
            _ => FileType::Audio,
        }
    }

    /// Converts between the plain name and the generation's encrypted
    /// name, leaving tags already on the requested side unchanged.
    pub fn convert(&self, to_normal: bool, version: RPGMakerVersion) -> (r: FileExtension)
        ensures
            r == convert_ext(*self, to_normal, version),
    {
        if to_normal {
            match self {
                FileExtension::RPGMVP | FileExtension::PNG_ => FileExtension::PNG,
                FileExtension::RPGMVO | FileExtension::OGG_ => FileExtension::OGG,
                FileExtension::RPGMVM | FileExtension::M4A_ => FileExtension::M4A,
                _ => *self,
            }
        } else {
            match (self, version) {
                (FileExtension::RPGMVP, _) | (FileExtension::PNG_, _) => *self,
                (FileExtension::RPGMVO, _) | (FileExtension::OGG_, _) => *self,
                (FileExtension::RPGMVM, _) | (FileExtension::M4A_, _) => *self,
                (FileExtension::PNG, RPGMakerVersion::MZ) => FileExtension::PNG_,
                (FileExtension::PNG, RPGMakerVersion::MV) => FileExtension::RPGMVP,
                (FileExtension::OGG, RPGMakerVersion::MZ) => FileExtension::OGG_,
                (FileExtension::OGG, RPGMakerVersion::MV) => FileExtension::RPGMVO,
                (FileExtension::M4A, RPGMakerVersion::MZ) => FileExtension::M4A_,
                (FileExtension::M4A, RPGMakerVersion::MV) => FileExtension::RPGMVM,
            }
        }
    }
}

/// Decides `matches_lower(s@, t@)`.
fn eq_lower(s: &Vec<char>, t: &str) -> (r: bool)
    ensures
        r == matches_lower(s@, t@),
{
    let tc = crate::strutil::str_chars(t);
    if s.len() != tc.len() {
        return false;
    }
    let mut i: usize = 0;
    while i < s.len()
        invariant
            0 <= i <= s@.len(),
            s@.len() == t@.len(),
            tc@ == t@,
            forall|j: int| 0 <= j < i ==> lower_u(#[trigger] s@[j] as u32) == t@[j] as u32,
        decreases s@.len() - i,
    {
        let su = s[i] as u32;
        let tu = tc[i] as u32;
        let folded = if 65 <= su && su <= 90 {
            su + 32
        } else {
            su
        };
        if folded != tu {
            return false;
        }
        i += 1;
    }
    true
}

/// Classification inverts naming: every tag's canonical name
/// classifies back to that tag.
pub proof fn lemma_from_str_to_str_round_trip(e: FileExtension)
    ensures
        ext_of(ext_str(e)) == Some(e),
{
    reveal_strlit("png");
    reveal_strlit("ogg");
    reveal_strlit("m4a");
    reveal_strlit("rpgmvp");
    reveal_strlit("rpgmvo");
    reveal_strlit("rpgmvm");
    reveal_strlit("png_");
    reveal_strlit("ogg_");
    reveal_strlit("m4a_");
    // every canonical name matches itself under case folding
    assert(matches_lower("png"@, "png"@));
    assert(matches_lower("ogg"@, "ogg"@));
    assert(matches_lower("m4a"@, "m4a"@));
    assert(matches_lower("rpgmvp"@, "rpgmvp"@));
    assert(matches_lower("rpgmvo"@, "rpgmvo"@));
    assert(matches_lower("rpgmvm"@, "rpgmvm"@));
    assert(matches_lower("png_"@, "png_"@));
    assert(matches_lower("ogg_"@, "ogg_"@));
    assert(matches_lower("m4a_"@, "m4a_"@));
    // names of equal length differ in some position
    assert(!matches_lower("ogg"@, "png"@)) by {
        assert(lower_u("ogg"@[0] as u32) != "png"@[0] as u32);
    }
    assert(!matches_lower("m4a"@, "png"@)) by {
        assert(lower_u("m4a"@[0] as u32) != "png"@[0] as u32);
    }
    assert(!matches_lower("m4a"@, "ogg"@)) by {
        assert(lower_u("m4a"@[0] as u32) != "ogg"@[0] as u32);
    }
    assert(!matches_lower("rpgmvo"@, "rpgmvp"@)) by {
        assert(lower_u("rpgmvo"@[5] as u32) != "rpgmvp"@[5] as u32);
    }
    assert(!matches_lower("rpgmvm"@, "rpgmvp"@)) by {
        assert(lower_u("rpgmvm"@[5] as u32) != "rpgmvp"@[5] as u32);
    }
    assert(!matches_lower("rpgmvm"@, "rpgmvo"@)) by {
        assert(lower_u("rpgmvm"@[5] as u32) != "rpgmvo"@[5] as u32);
    }
    assert(!matches_lower("ogg_"@, "png_"@)) by {
        assert(lower_u("ogg_"@[0] as u32) != "png_"@[0] as u32);
    }
    assert(!matches_lower("m4a_"@, "png_"@)) by {
        assert(lower_u("m4a_"@[0] as u32) != "png_"@[0] as u32);
    }
    assert(!matches_lower("m4a_"@, "ogg_"@)) by {
        assert(lower_u("m4a_"@[0] as u32) != "ogg_"@[0] as u32);
    }
}

/// Canonical names hold neither slashes nor dots.
pub proof fn lemma_ext_str_chars(e: FileExtension)
    ensures
        forall|i: int|
            0 <= i < ext_str(e).len() ==> ext_str(e)[i] != '/' && ext_str(e)[i] != '.',
{
    reveal_strlit("png");
    reveal_strlit("ogg");
    reveal_strlit("m4a");
    reveal_strlit("rpgmvp");
    reveal_strlit("rpgmvo");
    reveal_strlit("rpgmvm");
    reveal_strlit("png_");
    reveal_strlit("ogg_");
    reveal_strlit("m4a_");
}

/// Plain tags are fixed points of decryption: converting a plain tag
/// toward plain leaves it unchanged.
pub proof fn lemma_plain_fixed_under_decrypt(e: FileExtension, version: RPGMakerVersion)
    requires
        !is_encrypted_ext(e),
    ensures
        convert_ext(e, true, version) == e,
{
}

/// Decrypting then re-encrypting an encrypted tag under the MV
/// generation yields an equivalent encrypted tag: it is encrypted and
/// keeps the true format and MIME type of the original.
pub proof fn lemma_convert_round_trip_mv(e: FileExtension)
    requires
        is_encrypted_ext(e),
    ensures
        ({
            let r = convert_ext(
                convert_ext(e, true, RPGMakerVersion::MV),
                false,
                RPGMakerVersion::MV,
            );
            is_encrypted_ext(r) && file_type_of(r) == file_type_of(e) && mime_of(r) == mime_of(e)
        }),
{
}

/// Encrypted tags are fixed points of encryption: converting an
/// encrypted tag away from plain leaves it unchanged, under either
/// generation. In particular the MZ round trip plain -> encrypted is
/// the identity on already-encrypted names.
pub proof fn lemma_encrypted_fixed_under_encrypt(e: FileExtension, version: RPGMakerVersion)
    requires
        is_encrypted_ext(e),
    ensures
        convert_ext(e, false, version) == e,
{
}

} // verus!
