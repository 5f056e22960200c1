//! An asset file: a path, an optional content buffer, and a target
//! engine generation. Its classification — extension tag, true format,
//! MIME type, encrypted flag — is derived from the path, and the path's
//! extension can be rewritten across the encrypted/plain naming schemes.

use crate::error::Error;
use crate::extension::convert_ext;
use crate::extension::ext_of;
use crate::extension::ext_str;
use crate::extension::file_type_of;
use crate::extension::is_encrypted_ext;
use crate::extension::mime_of;
use crate::extension::FileExtension;
use crate::extension::FileType;
use crate::extension::RPGMakerVersion;
use crate::strutil::str_chars;
use vstd::prelude::*;

verus! {

/// An asset file bound to a path.
pub struct RPGFile {
    path: String,
    content: Option<Vec<u8>>,
    version: RPGMakerVersion,
}

/// The start of the path's file name: the position after the last
/// slash, or 0 when the path has none.
pub open spec fn name_start(p: Seq<char>) -> int
    decreases p.len(),
{
    if p.len() == 0 {
        0
    } else if p[p.len() - 1] == '/' {
        p.len() as int
    } else {
        name_start(p.drop_last())
    }
}

/// The position of the last dot at or after `from`, or -1 when there
/// is none.
pub open spec fn last_dot_from(p: Seq<char>, from: int) -> int
    decreases p.len(),
{
    if p.len() <= from || p.len() == 0 {
        -1
    } else if p[p.len() - 1] == '.' {
        p.len() - 1
    } else {
        last_dot_from(p.drop_last(), from)
    }
}

/// The extension of a path: the text after the last dot of its file
/// name, that dot not being the name's first character; `None` when
/// the name has no such dot.
pub open spec fn path_extension(p: Seq<char>) -> Option<Seq<char>> {
    let d = last_dot_from(p, name_start(p) + 1);
    if d == -1 {
        None
    } else {
        Some(p.skip(d + 1))
    }
}

/// The classification of a path: its extension matched against the
/// closed set of known names.
pub open spec fn path_ext_tag(p: Seq<char>) -> Option<FileExtension> {
    match path_extension(p) {
        Some(e) => ext_of(e),
        None => None,
    }
}

/// `name_start(p) == r` when no slash stands at or after `r` and `r`
/// is 0 or follows a slash.
proof fn lemma_name_start_is(p: Seq<char>, r: int)
    requires
        0 <= r <= p.len(),
        r > 0 ==> p[r - 1] == '/',
        forall|j: int| r <= j < p.len() ==> p[j] != '/',
    ensures
        name_start(p) == r,
    decreases p.len(),
{
    if p.len() != 0 && p[p.len() - 1] != '/' {
        lemma_name_start_is(p.drop_last(), r);
    }
}

/// `last_dot_from(p, from) == r` when `p[r]` is a dot and no later
/// position holds one.
proof fn lemma_last_dot_found(p: Seq<char>, from: int, r: int)
    requires
        0 <= r,
        from <= r < p.len(),
        p[r] == '.',
        forall|j: int| r < j < p.len() ==> p[j] != '.',
    ensures
        last_dot_from(p, from) == r,
    decreases p.len(),
{
    if p.len() - 1 != r {
        assert forall|j: int| r < j < p.drop_last().len() implies p.drop_last()[j] != '.' by {
            assert(p.drop_last()[j] == p[j]);
        }
        assert(p.drop_last()[r] == p[r]);
        lemma_last_dot_found(p.drop_last(), from, r);
    }
}

/// `last_dot_from(p, from) == -1` when no position at or after `from`
/// holds a dot.
proof fn lemma_last_dot_none(p: Seq<char>, from: int)
    requires
        0 <= from,
        forall|j: int| from <= j < p.len() ==> p[j] != '.',
    ensures
        last_dot_from(p, from) == -1,
    decreases p.len(),
{
    if p.len() > from && p.len() != 0 {
        assert forall|j: int| from <= j < p.drop_last().len() implies p.drop_last()[j] != '.' by {
            assert(p.drop_last()[j] == p[j]);
        }
        lemma_last_dot_none(p.drop_last(), from);
    }
}

/// What `name_start` returns: a position within the path that is 0 or
/// follows a slash, with no slash at or after it.
proof fn lemma_name_start_props(p: Seq<char>)
    ensures
        0 <= name_start(p) <= p.len(),
        name_start(p) > 0 ==> p[name_start(p) - 1] == '/',
        forall|j: int| name_start(p) <= j < p.len() ==> p[j] != '/',
    decreases p.len(),
{
    if p.len() != 0 && p[p.len() - 1] != '/' {
        lemma_name_start_props(p.drop_last());
        assert forall|j: int| name_start(p) <= j < p.len() implies p[j] != '/' by {
            if j < p.len() - 1 {
                assert(p.drop_last()[j] == p[j]);
            }
        }
        if name_start(p) > 0 {
            assert(p.drop_last()[name_start(p) - 1] == p[name_start(p) - 1]);
        }
    }
}

/// What `last_dot_from` returns: -1 exactly when no dot stands at or
/// after `from`; otherwise the last such dot's position.
proof fn lemma_last_dot_props(p: Seq<char>, from: int)
    requires
        0 <= from,
    ensures
        ({
            let d = last_dot_from(p, from);
            &&& (d == -1 ==> forall|j: int| from <= j < p.len() ==> p[j] != '.')
            &&& (d != -1 ==> from <= d < p.len() && p[d] == '.' && (forall|j: int|
                d < j < p.len() ==> p[j] != '.'))
        }),
    decreases p.len(),
{
    if p.len() > from && p.len() != 0 && p[p.len() - 1] != '.' {
        lemma_last_dot_props(p.drop_last(), from);
        let d = last_dot_from(p, from);
        if d == -1 {
            assert forall|j: int| from <= j < p.len() implies p[j] != '.' by {
                if j < p.len() - 1 {
                    assert(p.drop_last()[j] == p[j]);
                }
            }
        } else {
            assert(p.drop_last()[d] == p[d]);
            assert forall|j: int| d < j < p.len() implies p[j] != '.' by {
                if j < p.len() - 1 {
                    assert(p.drop_last()[j] == p[j]);
                }
            }
        }
    }
}

/// Law: rewriting a classified path's extension yields a path that
/// classifies as the converted tag — renaming moves an asset along
/// the encrypted/plain naming schemes as `convert_ext` says.
pub proof fn lemma_convert_extension_classifies(
    p: Seq<char>,
    tag: FileExtension,
    to_normal: bool,
    version: RPGMakerVersion,
)
    requires
        path_ext_tag(p) == Some(tag),
    ensures
        ({
            let d = last_dot_from(p, name_start(p) + 1);
            let c = convert_ext(tag, to_normal, version);
            path_ext_tag(p.take(d + 1) + ext_str(c)) == Some(c)
        }),
{
    let ns = name_start(p);
    let d = last_dot_from(p, ns + 1);
    let c = convert_ext(tag, to_normal, version);
    let ext = ext_str(c);
    let q = p.take(d + 1) + ext;
    lemma_name_start_props(p);
    lemma_last_dot_props(p, ns + 1);
    crate::extension::lemma_ext_str_chars(c);
    // the file name starts where it did: no slash was added
    assert forall|j: int| ns <= j < q.len() implies q[j] != '/' by {
        if j <= d {
            assert(q[j] == p[j]);
        } else {
            assert(q[j] == ext[j - (d + 1)]);
        }
    }
    if ns > 0 {
        assert(q[ns - 1] == p[ns - 1]);
    }
    lemma_name_start_is(q, ns);
    // the last dot is where it was: the new name adds none
    assert(q[d] == p[d]);
    assert forall|j: int| d < j < q.len() implies q[j] != '.' by {
        assert(q[j] == ext[j - (d + 1)]);
    }
    lemma_last_dot_found(q, ns + 1, d);
    // what follows that dot is exactly the canonical name
    assert(q.skip(d + 1) =~= ext);
    crate::extension::lemma_from_str_to_str_round_trip(c);
}

/// Finds `name_start` by scanning the characters from the end.
fn scan_name_start(chars: &Vec<char>) -> (r: usize)
    ensures
        r as int == name_start(chars@),
        r <= chars@.len(),
{
    let mut i = chars.len();
    while i > 0
        invariant
            0 <= i <= chars@.len(),
            forall|j: int| i <= j < chars@.len() ==> chars@[j] != '/',
        decreases i,
    {
        if chars[i - 1] == '/' {
            proof {
                lemma_name_start_is(chars@, i as int);
            }
            return i;
        }
        i -= 1;
    }
    proof {
        lemma_name_start_is(chars@, 0);
    }
    0
}

/// Finds `last_dot_from` by scanning the characters from the end.
fn scan_last_dot(chars: &Vec<char>, from: usize) -> (r: Option<usize>)
    ensures
        match r {
            Some(d) => d as int == last_dot_from(chars@, from as int) && from <= d
                < chars@.len(),
            None => last_dot_from(chars@, from as int) == -1,
        },
{
    let mut i = chars.len();
    while i > from
        invariant
            from <= i <= chars@.len() || i == chars@.len(),
            i <= chars@.len(),
            forall|j: int| i <= j < chars@.len() ==> chars@[j] != '.',
        decreases i,
    {
        if chars[i - 1] == '.' {
            proof {
                lemma_last_dot_found(chars@, from as int, i - 1);
            }
            return Some(i - 1);
        }
        i -= 1;
    }
    proof {
        lemma_last_dot_none(chars@, from as int);
    }
    None
}

impl RPGFile {
    /// The file's path text.
    pub closed spec fn path_spec(&self) -> Seq<char> {
        self.path@
    }

    /// The loaded content, when any.
    pub closed spec fn content_spec(&self) -> Option<Seq<u8>> {
        match self.content {
            Some(c) => Some(c@),
            None => None,
        }
    }

    /// The target engine generation.
    pub closed spec fn version_spec(&self) -> RPGMakerVersion {
        self.version
    }

    /// A file bound to a path, with no content loaded and the MV
    /// generation as target.
    pub fn new(path: String) -> (r: Result<RPGFile, Error>)
        ensures
            r is Ok,
            r.unwrap().path_spec() == path@,
            r.unwrap().content_spec() is None,
            r.unwrap().version_spec() == RPGMakerVersion::MV,
    {
        Ok(RPGFile { path, content: None, version: RPGMakerVersion::MV })
    }

    /// Sets the target generation.
    pub fn set_version(&mut self, version: RPGMakerVersion)
        ensures
            final(self).version_spec() == version,
            final(self).path_spec() == old(self).path_spec(),
            final(self).content_spec() == old(self).content_spec(),
    {
        self.version = version;
    }

    /// The target generation.
    pub fn get_version(&self) -> (r: RPGMakerVersion)
        ensures
            r == self.version_spec(),
    {
        self.version
    }

    /// The file's path.
    pub fn path(&self) -> (r: &str)
        ensures
            r@ == self.path_spec(),
    {
        self.path.as_str()
    }

    /// The loaded content, when any.
    pub fn content(&self) -> (r: Option<&[u8]>)
        ensures
            match r {
                Some(c) => self.content_spec() == Some(c@),
                None => self.content_spec() is None,
            },
    {
        match &self.content {
            Some(c) => Some(c.as_slice()),
            None => None,
        }
    }

    /// Replaces the content.
    pub fn set_content(&mut self, content: Vec<u8>)
        ensures
            final(self).content_spec() == Some(content@),
            final(self).path_spec() == old(self).path_spec(),
            final(self).version_spec() == old(self).version_spec(),
    {
        self.content = Some(content);
    }

    /// The classification of the path's extension.
    pub fn extension(&self) -> (r: Option<FileExtension>)
        ensures
            r == path_ext_tag(self.path_spec()),
    {
        let chars = str_chars(self.path.as_str());
        let ns = scan_name_start(&chars);
        if ns >= chars.len() {
            return None;
        }
        match scan_last_dot(&chars, ns + 1) {
            None => None,
            Some(d) => {
                let ext = self.path.as_str().substring_char(d + 1, chars.len());
                proof {
                    assert(ext@ =~= self.path@.skip(d + 1));
                }
                FileExtension::from_str(ext)
            },
        }
    }

    /// Rewrites the path's extension to the converted tag's canonical
    /// name; a path without a recognised extension is left unchanged.
    pub fn convert_extension(&mut self, to_normal: bool)
        ensures
            final(self).content_spec() == old(self).content_spec(),
            final(self).version_spec() == old(self).version_spec(),
            match path_ext_tag(old(self).path_spec()) {
                None => final(self).path_spec() == old(self).path_spec(),
                Some(tag) => {
                    let d = last_dot_from(
                        old(self).path_spec(),
                        name_start(old(self).path_spec()) + 1,
                    );
                    final(self).path_spec() == old(self).path_spec().take(d + 1) + ext_str(
                        convert_ext(tag, to_normal, old(self).version_spec()),
                    )
                },
            },
    {
        let chars = str_chars(self.path.as_str());
        let ns = scan_name_start(&chars);
        if ns >= chars.len() {
            return ;
        }
        match scan_last_dot(&chars, ns + 1) {
            None => {},
            Some(d) => {
                let ext = self.path.as_str().substring_char(d + 1, chars.len());
                proof {
                    assert(ext@ =~= self.path@.skip(d + 1));
                }
                match FileExtension::from_str(ext) {
                    None => {},
                    Some(tag) => {
                        let new_ext = tag.convert(to_normal, self.version);
                        let prefix = self.path.as_str().substring_char(0, d + 1);
                        proof {
                            assert(prefix@ =~= self.path@.take(d + 1));
                        }
                        let mut np = prefix.to_owned();
                        np.append(new_ext.to_str());
                        self.path = np;
                    },
                }
            },
        }
    }

    /// Whether the path's extension is one of the encrypted names.
    pub fn is_encrypted(&self) -> (r: bool)
        ensures
            r == match path_ext_tag(self.path_spec()) {
                Some(e) => is_encrypted_ext(e),
                None => false,
            },
    {
        match self.extension() {
            Some(e) => e.is_encrypted(),
            None => false,
        }
    }

    /// Whether the path's extension names an image format.
    pub fn is_image(&self) -> (r: bool)
        ensures
            r == match path_ext_tag(self.path_spec()) {
                Some(e) => file_type_of(e) == FileType::Image,
                None => false,
            },
    {
        match self.extension() {
            Some(e) => e.get_file_type() == FileType::Image,
            None => false,
        }
    }

    /// The MIME type of the path's extension, when it classifies.
    pub fn mime_type(&self) -> (r: Option<&'static str>)
        ensures
            match path_ext_tag(self.path_spec()) {
                Some(e) => r is Some && r.unwrap()@ == mime_of(e),
                None => r is None,
            },
    {
        match self.extension() {
            Some(e) => Some(e.get_mime_type()),
            None => None,
        }
    }
}

} // verus!
