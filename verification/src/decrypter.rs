//! The decryption engine: the fake-header protocol, the XOR prefix
//! transform, true-header restoration, and key detection.

use crate::error::Error;
use crate::extension::FileExtension;
use crate::headers::m4a_header_bytes;
use crate::headers::m4a_header_table;
use crate::headers::ogg_header_bytes;
use crate::headers::ogg_header_table;
use crate::headers::png_header_bytes;
use crate::headers::png_header_table;
use crate::hex::all_hex_digits;
use crate::hex::bits_chars;
use crate::hex::byte_hex_chars;
use crate::hex::byte_hex_string;
use crate::hex::bytes_hex_chars;
use crate::hex::hex_digit_value_of;
use crate::hex::hex_pair_or_zero;
use crate::hex::is_hex_digit;
use crate::hex::is_hex_digit_char;
use crate::hex::valid_hex_key;
use crate::key::png_recovered_bytes;
use crate::key::rpg_core_candidate;
use crate::key::Key;
use crate::shims;
use crate::strutil::str_chars;
use vstd::math::min;
use vstd::pervasive::VecAdditionalExecFns;
use vstd::prelude::*;
use vstd::slice::slice_subrange;
use vstd::slice::slice_to_vec;

verus! {

/// The decryption engine: an optional key, the fake-header
/// configuration, and the per-format true-header lengths, all resolved
/// to the engine's canonical defaults at construction. A value is
/// immutable but for the `ignore_fake_header` flag, and cheap to clone
/// and share across independent callers.
#[derive(Clone)]
pub struct Decrypter {
    /// The obfuscation key; with none set, the XOR transform leaves
    /// content unchanged.
    pub key: Option<Key>,
    ignore_fake_header: bool,
    header_len: usize,
    signature: String,
    version: String,
    remain: String,
    png_header_len: usize,
    ogg_header_len: usize,
    m4a_header_len: usize,
}

/// The prefix transform: the first `n` bytes of `data` XORed with the
/// key bytes, as far as data and key reach; the rest unchanged. The
/// transform is its own inverse.
pub open spec fn xor_head(data: Seq<u8>, key: Seq<u8>, n: int) -> Seq<u8> {
    Seq::new(
        data.len(),
        |i: int|
            if i < n && i < key.len() {
                data[i] ^ key[i]
            } else {
                data[i]
            },
    )
}

/// The canonical 16-byte fake header, which the default configuration
/// decodes to.
pub open spec fn default_fake_header() -> Seq<u8> {
    seq![
        0x52u8, 0x50, 0x47, 0x4d, 0x56, 0x00, 0x00, 0x00,
        0x00, 0x03, 0x01, 0x00, 0x00, 0x00, 0x00, 0x00,
    ]
}

/// The tags whose true format is PNG.
pub open spec fn is_png_group(e: FileExtension) -> bool {
    e == FileExtension::PNG || e == FileExtension::RPGMVP || e == FileExtension::PNG_
}

/// The tags whose true format is OGG.
pub open spec fn is_ogg_group(e: FileExtension) -> bool {
    e == FileExtension::OGG || e == FileExtension::RPGMVO || e == FileExtension::OGG_
}

/// The tags whose true format is M4A.
pub open spec fn is_m4a_group(e: FileExtension) -> bool {
    e == FileExtension::M4A || e == FileExtension::RPGMVM || e == FileExtension::M4A_
}

/// Whether the buffer already begins with the true magic bytes of the
/// tag's format: the 4-byte OGG capture pattern, the 8-byte PNG
/// signature, or the `ftyp` tag at bytes 4 to 8 for M4A.
pub open spec fn has_true_header(data: Seq<u8>, e: FileExtension) -> bool {
    if is_ogg_group(e) {
        data.len() >= 4 && data.subrange(0, 4) == ogg_header_table().take(4)
    } else if is_png_group(e) {
        data.len() >= 8 && data.subrange(0, 8) == png_header_table().take(8)
    } else {
        data.len() >= 8 && data.subrange(4, 8) == m4a_header_table().subrange(4, 8)
    }
}

/// The key text each detection source yields from UTF-8 text: the JSON
/// settings field when it validates as a hex key, else the boot-script
/// candidate when that validates.
pub open spec fn text_candidate(text: Seq<char>) -> Option<Seq<char>> {
    let j = shims::json_string_field_at(text, "encryptionKey"@);
    if j is Some && valid_hex_key(j.unwrap()) {
        j
    } else {
        let c = rpg_core_candidate(text);
        if c is Some && valid_hex_key(c.unwrap()) {
            c
        } else {
            None
        }
    }
}

/// The key text that detection recovers from raw file contents: the
/// PNG known-plaintext recovery whenever the buffer is long enough for
/// it, else the text sources on valid UTF-8.
pub open spec fn detected_candidate(data: Seq<u8>, header_len: int) -> Option<Seq<char>> {
    if data.len() >= 2 * header_len {
        Some(bytes_hex_chars(png_recovered_bytes(data, header_len)))
    } else if vstd::utf8::valid_utf8(data) {
        text_candidate(vstd::utf8::decode_utf8(data))
    } else {
        None
    }
}

impl Decrypter {
    /// The key field, for contracts.
    pub closed spec fn key_spec(&self) -> Option<Key> {
        self.key
    }

    /// The fake-header length in bytes.
    pub closed spec fn header_len_spec(&self) -> int {
        self.header_len as int
    }

    /// The concatenated signature, version and remain hex texts.
    pub closed spec fn hex_config(&self) -> Seq<char> {
        self.signature@ + self.version@ + self.remain@
    }

    /// Whether decryption skips the fake-header check.
    pub closed spec fn ignores_fake_header(&self) -> bool {
        self.ignore_fake_header
    }

    /// The configured PNG true-header length.
    pub closed spec fn png_header_len_spec(&self) -> int {
        self.png_header_len as int
    }

    /// The configured OGG true-header length.
    pub closed spec fn ogg_header_len_spec(&self) -> int {
        self.ogg_header_len as int
    }

    /// The configured M4A true-header length.
    pub closed spec fn m4a_header_len_spec(&self) -> int {
        self.m4a_header_len as int
    }

    /// Well-formedness: the hex configuration holds at least
    /// `header_len` byte pairs.
    pub closed spec fn wf(&self) -> bool {
        self.signature@.len() + self.version@.len() + self.remain@.len() >= 2 * self.header_len
    }

    /// The fake header: `header_len` bytes decoded pairwise from the
    /// concatenated hex configuration, unparsable pairs standing for 0.
    pub open spec fn fake_header(&self) -> Seq<u8> {
        Seq::new(self.header_len_spec() as nat, |i: int| hex_pair_or_zero(self.hex_config(), i))
    }

    /// The key byte stream: the decoded key bytes, or empty with no key
    /// set (see `lemma_key_stream`).
    pub closed spec fn key_stream(&self) -> Seq<u8> {
        match self.key {
            Some(k) => k.bytes_spec(),
            None => Seq::empty(),
        }
    }

    /// Whether a buffer passes the fake-header check: long enough, and
    /// its prefix equal to the fake header.
    pub open spec fn passes_fake_header(&self, h: Seq<u8>) -> bool {
        h.len() >= self.header_len_spec() && h.subrange(0, self.header_len_spec())
            == self.fake_header()
    }

    /// Whether `decrypt` accepts the buffer: non-empty, and passing the
    /// fake-header check unless that check is switched off.
    pub open spec fn decrypt_accepts(&self, data: Seq<u8>) -> bool {
        data.len() > 0 && (self.ignores_fake_header() || self.passes_fake_header(data))
    }

    /// What a successful decrypt returns: the buffer with the fake
    /// header stripped and the prefix transform applied.
    pub open spec fn decrypt_output(&self, data: Seq<u8>) -> Seq<u8> {
        let strip = min(self.header_len_spec(), data.len() as int);
        xor_head(data.skip(strip), self.key_stream(), self.header_len_spec())
    }

    /// What a successful encrypt returns: the prefix transform applied
    /// to the buffer, with the fake header prepended.
    pub open spec fn encrypt_output(&self, data: Seq<u8>) -> Seq<u8> {
        self.fake_header() + xor_head(data, self.key_stream(), self.header_len_spec())
    }

    /// The true header this decrypter installs for the tag's format:
    /// the format's table, truncated to the configured length where
    /// that is shorter.
    pub open spec fn true_header(&self, e: FileExtension) -> Seq<u8> {
        if is_png_group(e) {
            png_header_table().take(min(self.png_header_len_spec(), 16))
        } else if is_ogg_group(e) {
            ogg_header_table().take(min(self.ogg_header_len_spec(), 27))
        } else {
            m4a_header_table().take(min(self.m4a_header_len_spec(), 16))
        }
    }

    /// What restoration returns on a non-empty buffer: the buffer
    /// itself when it already carries its true magic bytes; otherwise
    /// the configured true header, prepended to the buffer with the
    /// fake header stripped when one is present.
    pub open spec fn restore_output(&self, data: Seq<u8>, e: FileExtension) -> Seq<u8> {
        if has_true_header(data, e) {
            data
        } else {
            let rest = if self.passes_fake_header(data) {
                data.skip(self.header_len_spec())
            } else {
                data
            };
            self.true_header(e) + rest
        }
    }

    /// A decrypter with the engine's canonical configuration and the
    /// given key.
    pub fn new(key: Option<Key>) -> (r: Decrypter)
        ensures
            r.wf(),
            r.key_spec() == key,
            !r.ignores_fake_header(),
            r.header_len_spec() == 16,
            r.png_header_len_spec() == 16,
            r.ogg_header_len_spec() == 28,
            r.m4a_header_len_spec() == 16,
            r.fake_header() == default_fake_header(),
    {
        let d = Decrypter {
            key,
            ignore_fake_header: false,
            header_len: 16,
            signature: "5250474d56000000".to_owned(),
            version: "000301".to_owned(),
            remain: "0000000000".to_owned(),
            png_header_len: 16,
            ogg_header_len: 28,
            m4a_header_len: 16,
        };
        proof {
            reveal_strlit("5250474d56000000");
            reveal_strlit("000301");
            reveal_strlit("0000000000");
            assert(d.hex_config().len() == 32);
            assert(d.fake_header() =~= default_fake_header());
        }
        d
    }

    /// Switches the fake-header check off or on for decryption; the
    /// rest of the configuration is immutable after construction.
    pub fn set_ignore_fake_header(&mut self, ignore: bool)
        ensures
            final(self).ignores_fake_header() == ignore,
            final(self).key_spec() == old(self).key_spec(),
            final(self).key_stream() == old(self).key_stream(),
            final(self).header_len_spec() == old(self).header_len_spec(),
            final(self).hex_config() == old(self).hex_config(),
            final(self).png_header_len_spec() == old(self).png_header_len_spec(),
            final(self).ogg_header_len_spec() == old(self).ogg_header_len_spec(),
            final(self).m4a_header_len_spec() == old(self).m4a_header_len_spec(),
            final(self).wf() == old(self).wf(),
    {
        self.ignore_fake_header = ignore;
    }

    /// A decrypter configured with a key detected from file contents,
    /// when detection succeeds.
    pub fn from_file(file_contents: &[u8]) -> (r: Option<Decrypter>)
        ensures
            match r {
                Some(d) => {
                    &&& d.wf()
                    &&& d.header_len_spec() == 16
                    &&& !d.ignores_fake_header()
                    &&& d.fake_header() == default_fake_header()
                    &&& d.key_spec() is Some
                    &&& d.key_spec().unwrap().wf()
                    &&& detected_candidate(file_contents@, 16) == Some(
                        d.key_spec().unwrap().raw_spec(),
                    )
                },
                None => detected_candidate(file_contents@, 16) is None,
            },
    {
        let key = Self::detect_key_from_file(file_contents);
        if let Some(key) = key {
            Some(Self::new(Some(key)))
        } else {
            None
        }
    }

    /// Whether the buffer's first `header_len` bytes equal the fake
    /// header this decrypter builds.
    pub fn verify_fake_header(&self, file_header: &[u8]) -> (r: bool)
        requires
            self.wf(),
        ensures
            r == self.passes_fake_header(file_header@),
    {
        let fake_header = self.build_fake_header();
        if file_header.len() < self.header_len {
            return false;
        }
        let mut i: usize = 0;
        while i < self.header_len
            invariant
                0 <= i <= self.header_len_spec(),
                file_header@.len() >= self.header_len_spec(),
                fake_header@ == self.fake_header(),
                forall|j: int| 0 <= j < i ==> file_header@[j] == self.fake_header()[j],
            decreases self.header_len_spec() - i,
        {
            if file_header[i] != fake_header[i] {
                proof {
                    assert(file_header@.subrange(0, self.header_len_spec())[i as int]
                        != self.fake_header()[i as int]);
                }
                return false;
            }
            i += 1;
        }
        proof {
            assert(file_header@.subrange(0, self.header_len_spec()) =~= self.fake_header());
        }
        true
    }

    /// Builds the fake header: each successive pair of hex characters
    /// from the concatenated configuration decodes to one byte, an
    /// unparsable pair to 0.
    pub fn build_fake_header(&self) -> (r: Vec<u8>)
        requires
            self.wf(),
        ensures
            r@ == self.fake_header(),
    {
        let mut hx = str_chars(self.signature.as_str());
        let ver = str_chars(self.version.as_str());
        let rem = str_chars(self.remain.as_str());
        let mut i: usize = 0;
        while i < ver.len()
            invariant
                0 <= i <= ver@.len(),
                ver@ == self.version@,
                hx@ == self.signature@ + ver@.take(i as int),
            decreases ver@.len() - i,
        {
            hx.push(ver[i]);
            proof {
                assert(hx@ =~= self.signature@ + ver@.take(i + 1));
            }
            i += 1;
        }
        let mut i: usize = 0;
        while i < rem.len()
            invariant
                0 <= i <= rem@.len(),
                rem@ == self.remain@,
                hx@ == self.signature@ + self.version@ + rem@.take(i as int),
            decreases rem@.len() - i,
        {
            hx.push(rem[i]);
            proof {
                assert(hx@ =~= self.signature@ + self.version@ + rem@.take(i + 1));
            }
            i += 1;
        }
        proof {
            assert(ver@.take(ver@.len() as int) =~= self.version@);
            assert(rem@.take(rem@.len() as int) =~= self.remain@);
            assert(hx@ =~= self.hex_config());
        }
        let total = hx.len();
        let mut fake: Vec<u8> = Vec::new();
        let mut i: usize = 0;
        while i < self.header_len
            invariant
                0 <= i <= self.header_len_spec(),
                hx@ == self.hex_config(),
                total == hx@.len(),
                2 * self.header_len_spec() <= total,
                fake@.len() == i,
                forall|j: int| 0 <= j < i ==> fake@[j] == hex_pair_or_zero(self.hex_config(), j),
            decreases self.header_len_spec() - i,
        {
            let hi = hx[2 * i];
            let lo = hx[2 * i + 1];
            let b = if is_hex_digit_char(hi) && is_hex_digit_char(lo) {
                16 * hex_digit_value_of(hi) + hex_digit_value_of(lo)
            } else {
                0u8
            };
            fake.push(b);
            i += 1;
        }
        proof {
            assert(fake@ =~= self.fake_header());
        }
        fake
    }

    /// Decrypts a buffer: refuses an empty buffer, checks and strips
    /// the fake header (unless the check is switched off), and applies
    /// the prefix transform to what remains.
    pub fn decrypt(&self, data: &[u8]) -> (r: Result<Vec<u8>, Error>)
        requires
            self.wf(),
        ensures
            data@.len() == 0 ==> r == Err::<Vec<u8>, Error>(Error::EmptyFile),
            data@.len() > 0 && !self.decrypt_accepts(data@) ==> r == Err::<Vec<u8>, Error>(
                Error::InvalidHeader,
            ),
            self.decrypt_accepts(data@) ==> r is Ok && r.unwrap()@ == self.decrypt_output(data@),
    {
        if data.len() == 0 {
            return Err(Error::EmptyFile);
        }
        if !self.ignore_fake_header {
            if !self.verify_fake_header(data) {
                return Err(Error::InvalidHeader);
            }
        }
        let strip = if self.header_len < data.len() {
            self.header_len
        } else {
            data.len()
        };
        let tail = slice_subrange(data, strip, data.len());
        let mut content = slice_to_vec(tail);
        proof {
            assert(content@ =~= data@.skip(min(self.header_len_spec(), data@.len() as int)));
        }
        self.xor_bytes(&mut content);
        Ok(content)
    }

    /// Encrypts a buffer: refuses an empty buffer, applies the prefix
    /// transform, prepends a freshly built fake header, and re-checks
    /// that header as the engine does (a check that cannot fail).
    pub fn encrypt(&self, data: &[u8]) -> (r: Result<Vec<u8>, Error>)
        requires
            self.wf(),
        ensures
            data@.len() == 0 ==> r == Err::<Vec<u8>, Error>(Error::EmptyFile),
            data@.len() > 0 ==> r is Ok && r.unwrap()@ == self.encrypt_output(data@),
    {
        if data.len() == 0 {
            return Err(Error::EmptyFile);
        }
        let mut content = slice_to_vec(data);
        self.xor_bytes(&mut content);
        let mut result = self.build_fake_header();
        let mut i: usize = 0;
        while i < content.len()
            invariant
                0 <= i <= content@.len(),
                result@ == self.fake_header() + content@.take(i as int),
            decreases content@.len() - i,
        {
            result.push(content[i]);
            proof {
                assert(result@ =~= self.fake_header() + content@.take(i + 1));
            }
            i += 1;
        }
        proof {
            assert(content@.take(content@.len() as int) =~= content@);
            assert(result@.subrange(0, self.header_len_spec()) =~= self.fake_header());
        }
        if !self.verify_fake_header(result.as_slice()) {
            return Err(Error::InvalidHeader);
        }
        Ok(result)
    }

    /// Applies the prefix transform in place: XORs the first
    /// `header_len` bytes (as far as data and key reach) with the key
    /// bytes; without a key the content is left unchanged.
    fn xor_bytes(&self, data: &mut Vec<u8>)
        ensures
            final(data)@ == xor_head(old(data)@, self.key_stream(), self.header_len_spec()),
    {
        match &self.key {
            None => {
                proof {
                    assert(data@ =~= xor_head(
                        data@,
                        self.key_stream(),
                        self.header_len_spec(),
                    ));
                }
            },
            Some(k) => {
                let kb = k.as_bytes();
                let mut n = self.header_len;
                if data.len() < n {
                    n = data.len();
                }
                if kb.len() < n {
                    n = kb.len();
                }
                let mut i: usize = 0;
                while i < n
                    invariant
                        0 <= i <= n,
                        n <= old(data)@.len(),
                        n <= kb@.len(),
                        n == min(
                            self.header_len_spec(),
                            min(old(data)@.len() as int, kb@.len() as int),
                        ),
                        kb@ == self.key_stream(),
                        data@.len() == old(data)@.len(),
                        forall|j: int|
                            0 <= j < i ==> data@[j] == (old(data)@[j] ^ self.key_stream()[j]),
                        forall|j: int| i <= j < data@.len() ==> data@[j] == old(data)@[j],
                    decreases n - i,
                {
                    let x = data[i] ^ kb[i];
                    data.set(i, x);
                    i += 1;
                }
                proof {
                    assert(data@ =~= xor_head(
                        old(data)@,
                        self.key_stream(),
                        self.header_len_spec(),
                    ));
                }
            },
        }
    }

    /// Restores the true format header: a buffer already carrying its
    /// magic bytes is returned unchanged; otherwise the configured true
    /// header is prepended, after stripping the fake header when the
    /// buffer still carries one.
    pub fn restore_header(&self, data: &[u8], file_type: FileExtension) -> (r: Result<
        Vec<u8>,
        Error,
    >)
        requires
            self.wf(),
        ensures
            data@.len() == 0 ==> r == Err::<Vec<u8>, Error>(Error::EmptyFile),
            data@.len() > 0 ==> r is Ok && r.unwrap()@ == self.restore_output(data@, file_type),
    {
        if data.len() == 0 {
            return Err(Error::EmptyFile);
        }
        let has_correct_header = match file_type {
            FileExtension::OGG | FileExtension::RPGMVO | FileExtension::OGG_ => data.len() >= 4
                && data[0] == 0x4f && data[1] == 0x67 && data[2] == 0x67 && data[3] == 0x53,
            FileExtension::PNG | FileExtension::RPGMVP | FileExtension::PNG_ => data.len() >= 8
                && data[0] == 0x89 && data[1] == 0x50 && data[2] == 0x4e && data[3] == 0x47
                && data[4] == 0x0d && data[5] == 0x0a && data[6] == 0x1a && data[7] == 0x0a,
            FileExtension::M4A | FileExtension::RPGMVM | FileExtension::M4A_ => data.len() >= 8
                && data[4] == 0x66 && data[5] == 0x74 && data[6] == 0x79 && data[7] == 0x70,
        };
        proof {
            if is_ogg_group(file_type) && data@.len() >= 4 {
                let t = ogg_header_table().take(4);
                assert(t[0] == 0x4f && t[1] == 0x67 && t[2] == 0x67 && t[3] == 0x53);
                if data@[0] == 0x4f && data@[1] == 0x67 && data@[2] == 0x67 && data@[3] == 0x53 {
                    assert(data@.subrange(0, 4) =~= t);
                }
                if data@.subrange(0, 4) == t {
                    assert forall|j: int| 0 <= j < 4 implies data@[j] == t[j] by {
                        assert(data@.subrange(0, 4)[j] == data@[j]);
                    }
                }
            }
            if is_png_group(file_type) && data@.len() >= 8 {
                let t = png_header_table().take(8);
                assert(t[0] == 0x89 && t[1] == 0x50 && t[2] == 0x4e && t[3] == 0x47);
                assert(t[4] == 0x0d && t[5] == 0x0a && t[6] == 0x1a && t[7] == 0x0a);
                if data@[0] == 0x89 && data@[1] == 0x50 && data@[2] == 0x4e && data@[3] == 0x47
                    && data@[4] == 0x0d && data@[5] == 0x0a && data@[6] == 0x1a && data@[7]
                    == 0x0a {
                    assert(data@.subrange(0, 8) =~= t);
                }
                if data@.subrange(0, 8) == t {
                    assert forall|j: int| 0 <= j < 8 implies data@[j] == t[j] by {
                        assert(data@.subrange(0, 8)[j] == data@[j]);
                    }
                }
            }
            if is_m4a_group(file_type) && data@.len() >= 8 {
                let t = m4a_header_table().subrange(4, 8);
                assert(t[0] == 0x66 && t[1] == 0x74 && t[2] == 0x79 && t[3] == 0x70);
                if data@[4] == 0x66 && data@[5] == 0x74 && data@[6] == 0x79 && data@[7] == 0x70 {
                    assert(data@.subrange(4, 8) =~= t);
                }
                if data@.subrange(4, 8) == t {
                    assert forall|j: int| 0 <= j < 4 implies data@[4 + j] == t[j] by {
                        assert(data@.subrange(4, 8)[j] == data@[4 + j]);
                    }
                }
            }
            assert(has_correct_header == has_true_header(data@, file_type));
        }
        if has_correct_header {
            return Ok(slice_to_vec(data));
        }
        let (correct_header_len, table): (usize, Vec<u8>) = match file_type {
            FileExtension::PNG | FileExtension::RPGMVP | FileExtension::PNG_ => (
                self.png_header_len,
                png_header_bytes(),
            ),
            FileExtension::OGG | FileExtension::RPGMVO | FileExtension::OGG_ => (
                self.ogg_header_len,
                ogg_header_bytes(),
            ),
            FileExtension::M4A | FileExtension::RPGMVM | FileExtension::M4A_ => (
                self.m4a_header_len,
                m4a_header_bytes(),
            ),
        };
        let mut result = get_header_bytes(&table, correct_header_len);
        proof {
            assert(result@ == self.true_header(file_type));
        }
        let has_fake_header = self.verify_fake_header(data);
        let content_start = if has_fake_header {
            self.header_len
        } else {
            0
        };
        let ghost rest = if self.passes_fake_header(data@) {
            data@.skip(self.header_len_spec())
        } else {
            data@
        };
        let mut i = content_start;
        while i < data.len()
            invariant
                content_start <= i <= data@.len(),
                content_start == if self.passes_fake_header(data@) {
                    self.header_len_spec()
                } else {
                    0
                },
                rest == data@.skip(content_start as int),
                result@ == self.true_header(file_type) + data@.subrange(
                    content_start as int,
                    i as int,
                ),
            decreases data@.len() - i,
        {
            result.push(data[i]);
            proof {
                assert(result@ =~= self.true_header(file_type) + data@.subrange(
                    content_start as int,
                    i + 1,
                ));
            }
            i += 1;
        }
        proof {
            assert(data@.subrange(content_start as int, data@.len() as int) =~= rest);
            assert(result@ == self.restore_output(data@, file_type));
        }
        Ok(result)
    }

    /// The fake-header length in bytes.
    pub fn get_header_len(&self) -> (r: usize)
        ensures
            r as int == self.header_len_spec(),
    {
        self.header_len
    }

    /// Detects the key from raw file contents: the PNG known-plaintext
    /// heuristic first, then — when the bytes decode as UTF-8 text —
    /// the JSON settings field and the boot-script scan, in that order.
    pub fn detect_key_from_file(file_contents: &[u8]) -> (r: Option<Key>)
        ensures
            match r {
                Some(k) => k.wf() && detected_candidate(file_contents@, 16) == Some(k.raw_spec()),
                None => detected_candidate(file_contents@, 16) is None,
            },
    {
        let header_len = Self::new(None).get_header_len();
        Self::detect_encryption_code(file_contents, header_len)
    }

    /// The shared body of detection, over an explicit header length.
    fn detect_encryption_code(data: &[u8], header_len: usize) -> (r: Option<Key>)
        requires
            header_len <= 16,
        ensures
            match r {
                Some(k) => k.wf() && detected_candidate(data@, header_len as int) == Some(
                    k.raw_spec(),
                ),
                None => detected_candidate(data@, header_len as int) is None,
            },
    {
        match Key::from_png_header(header_len, data) {
            Some(k) => Some(k),
            None => {
                match shims::utf8_string(data) {
                    Some(text) => {
                        match Key::from_json(text.as_str()) {
                            Some(k) => Some(k),
                            None => Key::from_rpg_core(text.as_str()),
                        }
                    },
                    None => None,
                }
            },
        }
    }

    /// The two-digit lowercase hex text of a byte.
    pub fn byte_to_hex(byte: u8) -> (r: String)
        ensures
            r@ == byte_hex_chars(byte),
    {
        byte_hex_string(byte)
    }

    /// True when every character of `s` is a hexadecimal digit.
    pub fn check_hex_chars(s: &str) -> (r: bool)
        ensures
            r == (forall|i: int| 0 <= i < s@.len() ==> is_hex_digit(#[trigger] s@[i])),
    {
        let cs = str_chars(s);
        all_hex_digits(&cs)
    }

    /// The eight binary digits of a byte, most significant first.
    pub fn helper_show_bits(byte: u8) -> (r: String)
        ensures
            r@ == bits_chars(byte),
    {
        let mut s = String::new();
        s.append(if byte & 0x80 != 0 { "1" } else { "0" });
        s.append(if byte & 0x40 != 0 { "1" } else { "0" });
        s.append(if byte & 0x20 != 0 { "1" } else { "0" });
        s.append(if byte & 0x10 != 0 { "1" } else { "0" });
        s.append(if byte & 0x08 != 0 { "1" } else { "0" });
        s.append(if byte & 0x04 != 0 { "1" } else { "0" });
        s.append(if byte & 0x02 != 0 { "1" } else { "0" });
        s.append(if byte & 0x01 != 0 { "1" } else { "0" });
        proof {
            reveal_strlit("0");
            reveal_strlit("1");
            assert((byte >> 7) & 1 == 1 <==> byte & 0x80 != 0) by (bit_vector);
            assert((byte >> 6) & 1 == 1 <==> byte & 0x40 != 0) by (bit_vector);
            assert((byte >> 5) & 1 == 1 <==> byte & 0x20 != 0) by (bit_vector);
            assert((byte >> 4) & 1 == 1 <==> byte & 0x10 != 0) by (bit_vector);
            assert((byte >> 3) & 1 == 1 <==> byte & 0x08 != 0) by (bit_vector);
            assert((byte >> 2) & 1 == 1 <==> byte & 0x04 != 0) by (bit_vector);
            assert((byte >> 1) & 1 == 1 <==> byte & 0x02 != 0) by (bit_vector);
            assert((byte >> 0) & 1 == 1 <==> byte & 0x01 != 0) by (bit_vector);
            assert(s@ =~= bits_chars(byte));
        }
        s
    }
}

/// The first `header_len` bytes of a true-header table, or all of it
/// when the table is shorter.
fn get_header_bytes(table: &Vec<u8>, header_len: usize) -> (r: Vec<u8>)
    ensures
        r@ == table@.take(min(header_len as int, table@.len() as int)),
{
    let mut len = header_len;
    if table.len() < len {
        len = table.len();
    }
    let mut out: Vec<u8> = Vec::new();
    let mut i: usize = 0;
    while i < len
        invariant
            0 <= i <= len,
            len as int == min(header_len as int, table@.len() as int),
            out@ == table@.subrange(0, i as int),
        decreases len - i,
    {
        out.push(table[i]);
        proof {
            assert(out@ =~= table@.subrange(0, i + 1));
        }
        i += 1;
    }
    proof {
        assert(out@ =~= table@.take(min(header_len as int, table@.len() as int)));
    }
    out
}

/// The key stream of a decrypter is the decoded bytes of its key, or
/// empty when no key is set.
pub proof fn lemma_key_stream(d: Decrypter)
    ensures
        d.key_stream() == (match d.key_spec() {
            Some(k) => k.bytes_spec(),
            None => Seq::<u8>::empty(),
        }),
{
}

/// Law: with the fake-header check on, a non-empty buffer shorter
/// than the fake header is not accepted by `decrypt`, which therefore
/// reports an invalid header for it (and an empty file for an empty
/// buffer).
pub proof fn lemma_short_buffer_rejected(d: Decrypter, data: Seq<u8>)
    requires
        d.wf(),
        0 < data.len() < d.header_len_spec(),
        !d.ignores_fake_header(),
    ensures
        !d.decrypt_accepts(data),
{
}

/// Law: decrypting an encrypted buffer restores it exactly — for any
/// well-formed decrypter, with or without a key, and any non-empty
/// buffer, the encrypted output passes the fake-header check and
/// decrypts back to the original bytes.
pub proof fn lemma_decrypt_encrypt_round_trip(d: Decrypter, data: Seq<u8>)
    requires
        d.wf(),
        data.len() > 0,
    ensures
        d.decrypt_accepts(d.encrypt_output(data)),
        d.decrypt_output(d.encrypt_output(data)) == data,
{
    let hl = d.header_len_spec();
    let ks = d.key_stream();
    let enc = d.encrypt_output(data);
    let x = xor_head(data, ks, hl);
    assert(enc.subrange(0, hl) =~= d.fake_header());
    assert(enc.skip(hl) =~= x);
    assert forall|i: int| 0 <= i < data.len() implies xor_head(x, ks, hl)[i] == data[i] by {
        if i < hl && i < ks.len() {
            let a = data[i];
            let k = ks[i];
            assert((a ^ k) ^ k == a) by (bit_vector);
        }
    }
    assert(xor_head(x, ks, hl) =~= data);
}

/// Law: the fake header a well-formed decrypter builds always passes
/// its own fake-header check, whatever the configuration.
pub proof fn lemma_built_header_verifies(d: Decrypter)
    requires
        d.wf(),
    ensures
        d.passes_fake_header(d.fake_header()),
{
    assert(d.fake_header().subrange(0, d.header_len_spec()) =~= d.fake_header());
}

/// Law: the PNG known-plaintext heuristic recovers a working key. For
/// any keyed decrypter with the default header length and any buffer
/// that starts with the true PNG header, the key bytes recovered from
/// the encrypted output de-obfuscate its payload back to the original
/// buffer — so a decrypter holding the recovered key decrypts it.
pub proof fn lemma_png_key_recovery(d: Decrypter, data: Seq<u8>)
    requires
        d.wf(),
        d.header_len_spec() == 16,
        data.len() >= 16,
        data.subrange(0, 16) == png_header_table(),
    ensures
        d.encrypt_output(data).len() >= 32,
        xor_head(
            d.encrypt_output(data).skip(16),
            png_recovered_bytes(d.encrypt_output(data), 16),
            16,
        ) == data,
{
    let ks = d.key_stream();
    let enc = d.encrypt_output(data);
    let x = xor_head(data, ks, 16);
    let rec = png_recovered_bytes(enc, 16);
    assert(enc.skip(16) =~= x);
    assert forall|i: int| 0 <= i < data.len() implies xor_head(x, rec, 16)[i] == data[i] by {
        if i < 16 {
            assert(x[i] == enc[16 + i]);
            assert(rec[i] == (png_header_table()[i] ^ enc[16 + i]));
            assert(data[i] == png_header_table()[i]);
            let a = data[i];
            if i < ks.len() {
                let k = ks[i];
                assert(((a ^ k) ^ (a ^ (a ^ k))) == a) by (bit_vector);
            } else {
                assert((a ^ (a ^ a)) == a) by (bit_vector);
            }
        }
    }
    assert(xor_head(x, rec, 16) =~= data);
}

} // verus!
