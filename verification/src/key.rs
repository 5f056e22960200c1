//! The obfuscation key: a validated hexadecimal string with its decoded
//! byte form, and the three independent derivation heuristics — the PNG
//! known-plaintext recovery, the JSON settings field, and the boot-script
//! assignment scan.

use crate::headers::png_header_table;
use crate::hex::all_hex_digits;
use crate::hex::byte_hex_string;
use crate::hex::bytes_hex_chars;
use crate::hex::decode_hex_pairs;
use crate::hex::decode_pairs;
use crate::hex::lemma_bytes_hex_chars_push;
use crate::hex::lemma_bytes_hex_chars_valid;
use crate::hex::valid_hex_key;
use crate::shims;
use crate::strutil::str_chars;
use vstd::prelude::*;

verus! {

/// A validated obfuscation key. The raw text is hex of even length;
/// the bytes are its decoding, one byte per digit pair.
#[derive(Debug, Clone)]
pub struct Key {
    raw: String,
    bytes: Vec<u8>,
}

/// The key bytes that the PNG known-plaintext heuristic recovers from
/// an obfuscated PNG buffer: the true PNG header XORed with the bytes
/// that follow the fake header.
pub open spec fn png_recovered_bytes(data: Seq<u8>, header_len: int) -> Seq<u8> {
    Seq::new(header_len as nat, |i: int| png_header_table()[i] ^ data[header_len + i])
}

/// The assignment pattern that the boot-script scan looks for.
pub open spec fn rpg_needle() -> Seq<char> {
    "this._encryptionKey"@
}

/// True when `t` occurs in `s` starting at position `i`.
pub open spec fn occurs_at(s: Seq<char>, t: Seq<char>, i: int) -> bool {
    0 <= i && i + t.len() <= s.len() && s.subrange(i, i + t.len()) == t
}

/// True when `t` occurs anywhere in `s`.
pub open spec fn contains_seq(s: Seq<char>, t: Seq<char>) -> bool {
    exists|i: int| occurs_at(s, t, i)
}

/// The first position at or after `i` where `c` stands in `s`, or
/// `s.len()` when there is none.
pub open spec fn first_at_or_after(s: Seq<char>, c: char, i: int) -> int
    decreases s.len() - i,
{
    if i < 0 || i >= s.len() {
        s.len() as int
    } else if s[i] == c {
        i
    } else {
        first_at_or_after(s, c, i + 1)
    }
}

/// `first_at_or_after` stays within `[i, s.len()]`.
pub proof fn lemma_first_at_bounds(s: Seq<char>, c: char, i: int)
    requires
        0 <= i <= s.len(),
    ensures
        i <= first_at_or_after(s, c, i) <= s.len(),
    decreases s.len() - i,
{
    if i < s.len() && s[i] != c {
        lemma_first_at_bounds(s, c, i + 1);
    }
}

/// The line `l` without a trailing carriage return.
pub open spec fn strip_cr(l: Seq<char>) -> Seq<char> {
    if l.len() > 0 && l[l.len() - 1] == '\r' {
        l.drop_last()
    } else {
        l
    }
}

/// What one line yields: the text after its first double quote, up to
/// the next double quote or the end of the line; `None` when the line
/// has no quote at all.
pub open spec fn quoted_part(l: Seq<char>) -> Option<Seq<char>> {
    let q1 = first_at_or_after(l, '"', 0);
    if q1 == l.len() {
        None
    } else {
        let q2 = first_at_or_after(l, '"', q1 + 1);
        Some(l.subrange(q1 + 1, q2))
    }
}

/// What the boot-script scan yields: the quoted part of the first line
/// (split at newlines, trailing carriage returns dropped) that holds
/// the assignment pattern; `None` when no line does.
pub open spec fn rpg_core_candidate(s: Seq<char>) -> Option<Seq<char>>
    decreases s.len(),
    via rpg_core_candidate_decreases
{
    if s.len() == 0 {
        None
    } else {
        let nl = first_at_or_after(s, '\n', 0);
        let line = strip_cr(s.take(nl));
        if contains_seq(line, rpg_needle()) {
            quoted_part(line)
        } else if nl < s.len() {
            rpg_core_candidate(s.skip(nl + 1))
        } else {
            None
        }
    }
}

#[via_fn]
proof fn rpg_core_candidate_decreases(s: Seq<char>) {
    if s.len() != 0 {
        lemma_first_at_bounds(s, '\n', 0);
    }
}

impl Key {
    /// The hex text of the key.
    pub closed spec fn raw_spec(&self) -> Seq<char> {
        self.raw@
    }

    /// The decoded bytes of the key.
    pub closed spec fn bytes_spec(&self) -> Seq<u8> {
        self.bytes@
    }

    /// Well-formedness: the text is a valid hex key and the bytes are
    /// its decoding.
    pub closed spec fn wf(&self) -> bool {
        valid_hex_key(self.raw@) && self.bytes@ == decode_hex_pairs(self.raw@)
    }

    /// What well-formedness gives a caller.
    pub proof fn lemma_wf(&self)
        requires
            self.wf(),
        ensures
            valid_hex_key(self.raw_spec()),
            self.bytes_spec() == decode_hex_pairs(self.raw_spec()),
            self.bytes_spec().len() == self.raw_spec().len() / 2,
    {
    }

    /// Validates and decodes a hex key string. `None` exactly when the
    /// string has odd length or holds a character that is not a
    /// hexadecimal digit.
    pub fn new(key: &str) -> (r: Option<Key>)
        ensures
            r is Some <==> valid_hex_key(key@),
            r is Some ==> r.unwrap().wf() && r.unwrap().raw_spec() == key@,
    {
        let chars = str_chars(key);
        if !all_hex_digits(&chars) {
            return None;
        }
        if chars.len() % 2 != 0 {
            return None;
        }
        let bytes = decode_pairs(&chars);
        Some(Key { raw: key.to_owned(), bytes })
    }

    /// Recovers the key from an obfuscated PNG buffer: the bytes at
    /// `[header_len, 2*header_len)` are the public PNG header XORed
    /// with the key, so XORing them against that header yields the key
    /// bytes. `None` exactly when the buffer is too short.
    pub fn from_png_header(header_len: usize, data: &[u8]) -> (r: Option<Key>)
        requires
            header_len <= 16,
        ensures
            r is Some <==> data@.len() >= 2 * header_len,
            r is Some ==> r.unwrap().wf() && r.unwrap().bytes_spec() == png_recovered_bytes(
                data@,
                header_len as int,
            ) && r.unwrap().raw_spec() == bytes_hex_chars(
                png_recovered_bytes(data@, header_len as int),
            ),
    {
        if data.len() < 2 * header_len {
            return None;
        }
        let png = crate::headers::png_header_bytes();
        let ghost rec = png_recovered_bytes(data@, header_len as int);
        let mut key_text = String::new();
        let mut i: usize = 0;
        while i < header_len
            invariant
                0 <= i <= header_len,
                header_len <= 16,
                data@.len() >= 2 * header_len,
                png@ == png_header_table(),
                rec == png_recovered_bytes(data@, header_len as int),
                key_text@ == bytes_hex_chars(rec.take(i as int)),
            decreases header_len - i,
        {
            let b = png[i] ^ data[header_len + i];
            let hx = byte_hex_string(b);
            key_text.append(hx.as_str());
            proof {
                assert(b == rec[i as int]);
                assert(rec.take(i + 1) =~= rec.take(i as int).push(rec[i as int]));
                lemma_bytes_hex_chars_push(rec.take(i as int), rec[i as int]);
            }
            i += 1;
        }
        proof {
            assert(rec.take(header_len as int) =~= rec);
            lemma_bytes_hex_chars_valid(rec);
        }
        match Key::new(key_text.as_str()) {
            Some(k) => Some(k),
            None => None,
        }
    }

    /// Reads the key from a JSON settings document: the value of its
    /// top-level `encryptionKey` string field, validated as a hex key.
    pub fn from_json(json: &str) -> (r: Option<Key>)
        ensures
            match shims::json_string_field_at(json@, "encryptionKey"@) {
                Some(c) => {
                    &&& (r is Some <==> valid_hex_key(c))
                    &&& (r is Some ==> r.unwrap().wf() && r.unwrap().raw_spec() == c)
                },
                None => r is None,
            },
    {
        match shims::json_string_field(json, "encryptionKey") {
            Some(k) => Key::new(k.as_str()),
            None => None,
        }
    }

    /// Scans a boot script for the engine's key assignment: the first
    /// line holding the assignment pattern gives the quoted value,
    /// which is validated as a hex key.
    pub fn from_rpg_core(content: &str) -> (r: Option<Key>)
        ensures
            match rpg_core_candidate(content@) {
                Some(c) => {
                    &&& (r is Some <==> valid_hex_key(c))
                    &&& (r is Some ==> r.unwrap().wf() && r.unwrap().raw_spec() == c)
                },
                None => r is None,
            },
    {
        let chars = str_chars(content);
        let needle = str_chars("this._encryptionKey");
        let n = chars.len();
        let mut start: usize = 0;
        proof {
            assert(content@.skip(0) =~= content@);
        }
        while start < n
            invariant
                0 <= start <= n,
                n == content@.len(),
                chars@ == content@,
                needle@ == rpg_needle(),
                rpg_core_candidate(content@) == rpg_core_candidate(
                    content@.skip(start as int),
                ),
            decreases n - start,
        {
            let ghost suffix = content@.skip(start as int);
            let nl = find_char_in(&chars, '\n', start, n);
            proof {
                lemma_first_at_is(suffix, '\n', 0, nl - start);
            }
            let mut line_end = nl;
            if line_end > start && chars[line_end - 1] == '\r' {
                line_end -= 1;
            }
            let ghost line = strip_cr(suffix.take(nl - start));
            proof {
                assert(suffix.take(nl - start) =~= content@.subrange(start as int, nl as int));
                assert(line =~= content@.subrange(start as int, line_end as int));
            }
            if contains_pattern(&chars, start, line_end, &needle) {
                let q1 = find_char_in(&chars, '"', start, line_end);
                proof {
                    lemma_first_at_is(line, '"', 0, q1 - start);
                }
                if q1 == line_end {
                    return None;
                }
                let q2 = find_char_in(&chars, '"', q1 + 1, line_end);
                proof {
                    lemma_first_at_is(line, '"', q1 - start + 1, q2 - start);
                }
                let candidate = content.substring_char(q1 + 1, q2);
                proof {
                    assert(candidate@ =~= line.subrange(q1 - start + 1, q2 - start));
                }
                return Key::new(candidate);
            }
            if nl >= n {
                return None;
            }
            proof {
                assert(suffix.skip(nl - start + 1) =~= content@.skip(nl + 1));
            }
            start = nl + 1;
        }
        proof {
            assert(content@.skip(start as int).len() == 0);
        }
        None
    }

    /// The decoded key bytes.
    pub fn as_bytes(&self) -> (r: &[u8])
        ensures
            r@ == self.bytes_spec(),
    {
        self.bytes.as_slice()
    }

    /// The raw hex text of the key.
    pub fn as_str(&self) -> (r: &str)
        ensures
            r@ == self.raw_spec(),
    {
        self.raw.as_str()
    }
}

/// Two keys are equal exactly when their raw hex strings are equal.
impl PartialEq for Key {
    fn eq(&self, other: &Self) -> (r: bool) {
        self.raw == other.raw
    }
}

impl Eq for Key {

}

impl vstd::std_specs::cmp::PartialEqSpecImpl for Key {
    open spec fn obeys_eq_spec() -> bool {
        true
    }

    open spec fn eq_spec(&self, other: &Self) -> bool {
        self.raw_spec() == other.raw_spec()
    }
}

/// `first_at_or_after(s, c, i)` is the position `r` that is not
/// preceded (from `i` on) by `c` and either holds `c` or is the end.
proof fn lemma_first_at_is(s: Seq<char>, c: char, i: int, r: int)
    requires
        0 <= i,
        i <= r <= s.len(),
        forall|j: int| i <= j < r ==> s[j] != c,
        r < s.len() ==> s[r] == c,
    ensures
        first_at_or_after(s, c, i) == r,
    decreases r - i,
{
    if i < r {
        lemma_first_at_is(s, c, i + 1, r);
    }
}

/// The first position in `[from, to)` of `v` holding `c`, or `to`.
fn find_char_in(v: &Vec<char>, c: char, from: usize, to: usize) -> (r: usize)
    requires
        from <= to <= v@.len(),
    ensures
        from <= r <= to,
        forall|j: int| from <= j < r ==> v@[j] != c,
        r < to ==> v@[r as int] == c,
{
    let mut i = from;
    while i < to
        invariant
            from <= i <= to <= v@.len(),
            forall|j: int| from <= j < i ==> v@[j] != c,
        decreases to - i,
    {
        if v[i] == c {
            return i;
        }
        i += 1;
    }
    to
}

/// Whether `pat` occurs in `v` within the window `[from, to)`.
fn contains_pattern(v: &Vec<char>, from: usize, to: usize, pat: &Vec<char>) -> (r: bool)
    requires
        from <= to <= v@.len(),
    ensures
        r == contains_seq(v@.subrange(from as int, to as int), pat@),
{
    let ghost window = v@.subrange(from as int, to as int);
    let plen = pat.len();
    if to - from < plen {
        proof {
            assert forall|i: int| !occurs_at(window, pat@, i) by {}
        }
        return false;
    }
    let mut i = from;
    while i <= to - plen
        invariant
            from <= i,
            i <= to - plen + 1,
            from <= to <= v@.len(),
            plen == pat@.len(),
            plen <= to - from,
            window == v@.subrange(from as int, to as int),
            forall|k: int| 0 <= k < i - from ==> !occurs_at(window, pat@, k),
        decreases to - i,
    {
        let mut j: usize = 0;
        let mut matched = true;
        while j < plen
            invariant
                from <= i,
                i + plen <= to <= v@.len(),
                0 <= j <= plen,
                plen == pat@.len(),
                window == v@.subrange(from as int, to as int),
                matched <==> (forall|m: int| 0 <= m < j ==> v@[i + m] == pat@[m]),
            decreases plen - j,
        {
            if v[i + j] != pat[j] {
                matched = false;
                proof {
                    assert(v@[i + j as int] != pat@[j as int]);
                }
                j = plen;
            } else {
                j += 1;
            }
        }
        if matched {
            proof {
                assert(window.subrange(i - from, i - from + plen) =~= pat@);
                assert(occurs_at(window, pat@, i - from));
            }
            return true;
        }
        proof {
            let k = i - from;
            if occurs_at(window, pat@, k) {
                assert forall|m: int| 0 <= m < plen implies v@[i + m] == pat@[m] by {
                    assert(window.subrange(k, k + plen as int)[m] == pat@[m]);
                    assert(window[k + m] == v@[i + m]);
                }
            }
        }
        i += 1;
    }
    proof {
        assert forall|k: int| !occurs_at(window, pat@, k) by {
            if 0 <= k && k + pat@.len() <= window.len() && k >= i - from {
                assert(i > to - plen);
            }
        }
    }
    false
}

} // verus!
