//! The metadata header codec shared by both container formats.
//!
//! Every container opens with a `{class identity, uid}` header.  The text
//! encoding serializes it as a single structured line,
//! `(gd_class:"...",uid:"...")`, followed by a newline; the binary encoding
//! writes the two fields as length-prefixed strings (a little-endian
//! 32-bit byte count, then that many UTF-8 bytes) back to back.  Both
//! codecs are stream-positioned exactly: after a successful read the
//! cursor points at the first payload byte, which is the same offset the
//! writer leaves behind.

use vstd::prelude::*;
use vstd::utf8::{
    decode_utf8, encode_utf8, encode_utf8_decode_utf8, encode_utf8_valid_utf8,
    is_ascii_chars, is_ascii_chars_encode_utf8, valid_utf8,
};

use crate::cursor::FaWrapper;
use crate::errors::GdPropError;

verus! {

/// The metadata header of a persisted container: the stable class identity
/// of the stored resource and its UID in textual form.
#[derive(Debug, PartialEq, Eq)]
pub struct GdMetaHeader {
    pub gd_class: String,
    pub uid: String,
}

/// The four little-endian bytes of a value below `2^32`.
pub open spec fn u32_le_bytes(n: int) -> Seq<u8>
    recommends
        0 <= n < 0x100000000,
{
    seq![
        (n % 256) as u8,
        ((n / 256) % 256) as u8,
        ((n / 65536) % 256) as u8,
        ((n / 16777216) % 256) as u8,
    ]
}

/// The value of four little-endian bytes.
pub open spec fn le_bytes_to_u32(b: Seq<u8>) -> int
    recommends
        b.len() == 4,
{
    b[0] + 256 * (b[1] + 256 * (b[2] + 256 * b[3]))
}

/// Reading back the four little-endian bytes of `n` yields `n`.
pub proof fn lemma_u32_le_roundtrip(n: int)
    requires
        0 <= n < 0x100000000,
    ensures
        le_bytes_to_u32(u32_le_bytes(n)) == n,
{
    let b = u32_le_bytes(n);
    assert(b[0] == (n % 256) as u8);
    assert(n % 256 + 256 * (n / 256) == n) by (nonlinear_arith)
        requires n >= 0;
    assert((n / 256) % 256 + 256 * (n / 256 / 256) == n / 256) by (nonlinear_arith)
        requires n >= 0;
    assert((n / 65536) % 256 + 256 * (n / 65536 / 256) == n / 65536) by (nonlinear_arith)
        requires n >= 0;
    assert(n / 256 / 256 == n / 65536) by (nonlinear_arith)
        requires n >= 0;
    assert(n / 65536 / 256 == n / 16777216) by (nonlinear_arith)
        requires n >= 0;
    assert(n / 16777216 < 256);
}

/// The length-prefixed encoding of one string: a little-endian 32-bit byte
/// count followed by the string's UTF-8 bytes.
pub open spec fn pascal_bytes(s: Seq<char>) -> Seq<u8> {
    u32_le_bytes(encode_utf8(s).len() as int) + encode_utf8(s)
}

/// Parses one length-prefixed string at `pos`: the decoded characters and
/// the position just past them, or nothing when the bytes are truncated or
/// not valid UTF-8.
pub open spec fn spec_parse_pascal(data: Seq<u8>, pos: int) -> Option<(Seq<char>, int)>
    recommends
        0 <= pos,
{
    if pos + 4 <= data.len() {
        let n = le_bytes_to_u32(data.subrange(pos, pos + 4));
        if pos + 4 + n <= data.len() && valid_utf8(data.subrange(pos + 4, pos + 4 + n)) {
            Some((decode_utf8(data.subrange(pos + 4, pos + 4 + n)), pos + 4 + n))
        } else {
            None
        }
    } else {
        None
    }
}

/// The binary header encoding: both fields length-prefixed, back to back.
pub open spec fn gdbin_header_bytes(class: Seq<char>, uid: Seq<char>) -> Seq<u8> {
    pascal_bytes(class) + pascal_bytes(uid)
}

/// Parses a binary header at `pos`: class identity, uid, and the position
/// of the first payload byte.
pub open spec fn spec_parse_gdbin_header(data: Seq<u8>, pos: int) -> Option<
    (Seq<char>, Seq<char>, int),
>
    recommends
        0 <= pos,
{
    match spec_parse_pascal(data, pos) {
        Some((class, p1)) => match spec_parse_pascal(data, p1) {
            Some((uid, p2)) => Some((class, uid, p2)),
            None => None,
        },
        None => None,
    }
}

/// Relies on `String::from_utf8`: it succeeds exactly on valid UTF-8 input,
/// and the returned string is the one whose UTF-8 encoding is that input.
#[verifier::external_body]
fn bytes_to_string(v: Vec<u8>) -> (r: Option<String>)
    ensures
        r is Some <==> valid_utf8(v@),
        r matches Some(s) ==> encode_utf8(s@) == v@,
{
    String::from_utf8(v).ok()
}

/// Appends the four little-endian bytes of `n`.
fn push_u32_le(out: &mut Vec<u8>, n: u32)
    requires
        old(out).len() + 4 <= usize::MAX,
    ensures
        final(out)@ == old(out)@ + u32_le_bytes(n as int),
{
    out.push((n % 256) as u8);
    out.push(((n / 256) % 256) as u8);
    out.push(((n / 65536) % 256) as u8);
    out.push(((n / 16777216) % 256) as u8);
    proof {
        assert(final(out)@ =~= old(out)@ + u32_le_bytes(n as int));
    }
}

/// The value of the first four bytes of `b`, read little-endian.
fn read_u32_le(b: &Vec<u8>) -> (r: u32)
    requires
        b.len() == 4,
    ensures
        r as int == le_bytes_to_u32(b@),
{
    let b0 = b[0] as u32;
    let b1 = b[1] as u32;
    let b2 = b[2] as u32;
    let b3 = b[3] as u32;
    b0 + 256 * (b1 + 256 * (b2 + 256 * b3))
}

/// Appends the length-prefixed encoding of `s` at the end of the file.
fn store_pascal_string(fa: &mut FaWrapper, s: &str)
    requires
        old(fa).wf(),
        encode_utf8(s@).len() < 0x100000000,
        old(fa).data.len() + 4 + encode_utf8(s@).len() <= usize::MAX,
    ensures
        final(fa).wf(),
        final(fa).data@ == old(fa).data@ + pascal_bytes(s@),
        final(fa).pos == final(fa).data.len(),
{
    let bytes = s.as_bytes_vec();
    let mut prefix: Vec<u8> = Vec::new();
    push_u32_le(&mut prefix, bytes.len() as u32);
    fa.write(&prefix);
    fa.write(&bytes);
    proof {
        assert(final(fa).data@ =~= old(fa).data@ + pascal_bytes(s@));
    }
}

/// Reads one length-prefixed string at the cursor; on failure the cursor
/// is left where it was.
fn get_pascal_string(fa: &mut FaWrapper) -> (r: Result<String, GdPropError>)
    requires
        old(fa).wf(),
    ensures
        final(fa).wf(),
        final(fa).data == old(fa).data,
        match spec_parse_pascal(old(fa).data@, old(fa).pos as int) {
            Some((s, p)) => r matches Ok(v) && v@ == s && final(fa).pos == p,
            None => r matches Err(e) && e == GdPropError::HeaderDeserialize && final(fa).pos == old(fa).pos,
        },
{
    let start = fa.position();
    let prefix = match fa.read_exact(4) {
        Ok(v) => v,
        Err(_) => {
            return Err(GdPropError::HeaderDeserialize);
        },
    };
    let n = read_u32_le(&prefix);
    let bytes = match fa.read_exact(n as usize) {
        Ok(v) => v,
        Err(_) => {
            fa.set_pos(start);
            return Err(GdPropError::HeaderDeserialize);
        },
    };
    match bytes_to_string(bytes) {
        Some(s) => {
            proof {
                let ghost data = old(fa).data@;
                let ghost pos = old(fa).pos as int;
                assert(prefix@ == data.subrange(pos, pos + 4));
                assert(encode_utf8(s@) == data.subrange(pos + 4, pos + 4 + n));
                encode_utf8_decode_utf8(s@);
            }
            Ok(s)
        },
        None => {
            fa.set_pos(start);
            Err(GdPropError::HeaderDeserialize)
        },
    }
}

impl GdMetaHeader {
    /// Appends the binary header encoding of `self` at the end of the
    /// file, leaving the cursor at the first payload position.
    pub fn write_to_gdbin_fa(&self, fa: &mut FaWrapper)
        requires
            old(fa).wf(),
            encode_utf8(self.gd_class@).len() < 0x100000000,
            encode_utf8(self.uid@).len() < 0x100000000,
            old(fa).data.len() + 8 + encode_utf8(self.gd_class@).len() + encode_utf8(
                self.uid@,
            ).len() <= usize::MAX,
        ensures
            final(fa).wf(),
            final(fa).data@ == old(fa).data@ + gdbin_header_bytes(
                self.gd_class@,
                self.uid@,
            ),
            final(fa).pos == final(fa).data.len(),
    {
        store_pascal_string(fa, self.gd_class.as_str());
        store_pascal_string(fa, self.uid.as_str());
        proof {
            assert(final(fa).data@ =~= old(fa).data@ + gdbin_header_bytes(
                self.gd_class@,
                self.uid@,
            ));
        }
    }

    /// Reads a binary header at the cursor, leaving the cursor at the
    /// first payload byte; on failure the cursor is left where it was.
    pub fn read_from_gdbin_fa(fa: &mut FaWrapper) -> (r: Result<GdMetaHeader, GdPropError>)
        requires
            old(fa).wf(),
        ensures
            final(fa).wf(),
            final(fa).data == old(fa).data,
            match spec_parse_gdbin_header(old(fa).data@, old(fa).pos as int) {
                Some((class, uid, p)) => r matches Ok(h) && h.gd_class@ == class
                    && h.uid@ == uid && final(fa).pos == p,
                None => r matches Err(e) && e == GdPropError::HeaderDeserialize && final(fa).pos == old(fa).pos,
            },
    {
        let start = fa.position();
        let gd_class = get_pascal_string(fa)?;
        let uid = match get_pascal_string(fa) {
            Ok(v) => v,
            Err(e) => {
                fa.set_pos(start);
                return Err(e);
            },
        };
        Ok(GdMetaHeader { gd_class, uid })
    }

    /// The binary header encoding of `self` as a fresh byte vector.
    pub fn write_to_gdbin_header(&self) -> (r: Vec<u8>)
        requires
            encode_utf8(self.gd_class@).len() < 0x100000000,
            encode_utf8(self.uid@).len() < 0x100000000,
            8 + encode_utf8(self.gd_class@).len() + encode_utf8(self.uid@).len()
                <= usize::MAX,
        ensures
            r@ == gdbin_header_bytes(self.gd_class@, self.uid@),
    {
        let mut fa = FaWrapper::new_empty();
        self.write_to_gdbin_fa(&mut fa);
        proof {
            assert(fa.data@ =~= gdbin_header_bytes(self.gd_class@, self.uid@));
        }
        let FaWrapper { data, pos: _ } = fa;
        data
    }

    /// Parses a binary header from the start of `bytes`, returning the
    /// header and the offset of the first payload byte.
    pub fn read_from_gdbin_header(bytes: &Vec<u8>) -> (r: Result<
        (GdMetaHeader, usize),
        GdPropError,
    >)
        ensures
            match spec_parse_gdbin_header(bytes@, 0) {
                Some((class, uid, p)) => r matches Ok((h, q)) && h.gd_class@ == class
                    && h.uid@ == uid && q == p,
                None => r matches Err(e) && e == GdPropError::HeaderDeserialize,
            },
    {
        let mut fa = FaWrapper::new(bytes.clone());
        proof {
            assert(fa.data@ == bytes@);
        }
        let h = GdMetaHeader::read_from_gdbin_fa(&mut fa)?;
        Ok((h, fa.position()))
    }
}

/// Parsing the binary header encoding, with any payload behind it, yields
/// the same fields back, and consumes exactly the encoding's length.
pub proof fn lemma_gdbin_header_roundtrip(class: Seq<char>, uid: Seq<char>, rest: Seq<u8>)
    requires
        encode_utf8(class).len() < 0x100000000,
        encode_utf8(uid).len() < 0x100000000,
    ensures
        spec_parse_gdbin_header(gdbin_header_bytes(class, uid) + rest, 0) == Some(
            (class, uid, gdbin_header_bytes(class, uid).len() as int),
        ),
{
    let cb = encode_utf8(class);
    let ub = encode_utf8(uid);
    let data = gdbin_header_bytes(class, uid) + rest;
    lemma_u32_le_roundtrip(cb.len() as int);
    lemma_u32_le_roundtrip(ub.len() as int);
    encode_utf8_valid_utf8(class);
    encode_utf8_valid_utf8(uid);
    encode_utf8_decode_utf8(class);
    encode_utf8_decode_utf8(uid);
    assert(data.subrange(0, 4) =~= u32_le_bytes(cb.len() as int));
    assert(data.subrange(4, 4 + cb.len() as int) =~= cb);
    let p1: int = 4 + cb.len() as int;
    assert(spec_parse_pascal(data, 0) == Some((class, p1)));
    assert(data.subrange(p1, p1 + 4) =~= u32_le_bytes(ub.len() as int));
    assert(data.subrange(p1 + 4, p1 + 4 + ub.len() as int) =~= ub);
    let p2: int = p1 + 4 + ub.len() as int;
    assert(spec_parse_pascal(data, p1) == Some((uid, p2)));
    assert(gdbin_header_bytes(class, uid).len() == p2);
}


/// A header field the text grammar can carry: ASCII characters with no
/// double quote and no newline.
pub open spec fn header_field_ok(s: Seq<char>) -> bool {
    &&& is_ascii_chars(s)
    &&& forall|i: int| 0 <= i < s.len() ==> s[i] != '"' && s[i] != '\n'
}

/// The text header line for the given fields.
pub open spec fn gdron_line(class: Seq<char>, uid: Seq<char>) -> Seq<char> {
    "(gd_class:\""@ + class + "\",uid:\""@ + uid + "\")"@
}

/// The least index `>= from` holding `c`, or `-1` when none does.
pub open spec fn first_char_at(s: Seq<char>, c: char, from: int) -> int
    recommends
        0 <= from,
    decreases s.len() - from,
{
    if from >= s.len() {
        -1
    } else if s[from] == c {
        from
    } else {
        first_char_at(s, c, from + 1)
    }
}

/// A found index lies between `from` and the end of `s`, and holds `c`.
pub proof fn lemma_first_char_at_bounds(s: Seq<char>, c: char, from: int)
    requires
        0 <= from,
    ensures
        first_char_at(s, c, from) == -1 || (from <= first_char_at(s, c, from) < s.len()
            && s[first_char_at(s, c, from)] == c),
    decreases s.len() - from,
{
    if from < s.len() && s[from] != c {
        lemma_first_char_at_bounds(s, c, from + 1);
    }
}

/// If nothing in `[from, k)` is `c`, searching from `from` and from `k`
/// find the same index.
pub proof fn lemma_first_char_skip(s: Seq<char>, c: char, from: int, k: int)
    requires
        0 <= from <= k <= s.len(),
        forall|j: int| from <= j < k ==> s[j] != c,
    ensures
        first_char_at(s, c, from) == first_char_at(s, c, k),
    decreases k - from,
{
    if from < k {
        lemma_first_char_skip(s, c, from + 1, k);
    }
}

/// If `s[k]` is `c` and nothing before it from `from` is, the search from
/// `from` finds `k`.
pub proof fn lemma_first_char_is(s: Seq<char>, c: char, from: int, k: int)
    requires
        0 <= from <= k < s.len(),
        s[k] == c,
        forall|j: int| from <= j < k ==> s[j] != c,
    ensures
        first_char_at(s, c, from) == k,
{
    lemma_first_char_skip(s, c, from, k);
}

/// The least index `>= from` holding byte `b`, or `-1` when none does.
pub open spec fn first_byte_at(s: Seq<u8>, b: u8, from: int) -> int
    recommends
        0 <= from,
    decreases s.len() - from,
{
    if from >= s.len() {
        -1
    } else if s[from] == b {
        from
    } else {
        first_byte_at(s, b, from + 1)
    }
}

/// A found byte index lies between `from` and the end of `s`, and holds
/// `b`.
pub proof fn lemma_first_byte_at_bounds(s: Seq<u8>, b: u8, from: int)
    requires
        0 <= from,
    ensures
        first_byte_at(s, b, from) == -1 || (from <= first_byte_at(s, b, from) < s.len()
            && s[first_byte_at(s, b, from)] == b),
    decreases s.len() - from,
{
    if from < s.len() && s[from] != b {
        lemma_first_byte_at_bounds(s, b, from + 1);
    }
}

/// If nothing in `[from, k)` is `b`, searching from `from` and from `k`
/// find the same index.
pub proof fn lemma_first_byte_skip(s: Seq<u8>, b: u8, from: int, k: int)
    requires
        0 <= from <= k <= s.len(),
        forall|j: int| from <= j < k ==> s[j] != b,
    ensures
        first_byte_at(s, b, from) == first_byte_at(s, b, k),
    decreases k - from,
{
    if from < k {
        lemma_first_byte_skip(s, b, from + 1, k);
    }
}

/// Parses the text header line: the class identity between the first pair
/// of quotes, the uid between the second, with the exact punctuation of
/// the grammar around them.
pub open spec fn spec_parse_gdron_line(line: Seq<char>) -> Option<(Seq<char>, Seq<char>)> {
    if line.len() >= 11 && line.subrange(0, 11) == "(gd_class:\""@ {
        let q1 = first_char_at(line, '"', 11);
        if q1 >= 0 && q1 + 7 <= line.len() && line.subrange(q1, q1 + 7) == "\",uid:\""@ {
            let q2 = first_char_at(line, '"', q1 + 7);
            if q2 >= 0 && q2 + 2 == line.len() && line.subrange(q2, line.len() as int)
                == "\")"@ {
                Some((line.subrange(11, q1), line.subrange(q1 + 7, q2)))
            } else {
                None
            }
        } else {
            None
        }
    } else {
        None
    }
}

/// The least index `>= from` of `c` in `s`, if any.
fn find_char(s: &str, c: char, from: usize) -> (r: Option<usize>)
    requires
        from <= s@.len(),
    ensures
        match r {
            Some(i) => from <= i < s@.len() && first_char_at(s@, c, from as int) == i
                && s@[i as int] == c,
            None => first_char_at(s@, c, from as int) == -1,
        },
{
    let n = s.unicode_len();
    let mut i: usize = from;
    while i < n
        invariant
            from <= i <= n,
            n == s@.len(),
            forall|j: int| from <= j < i ==> s@[j] != c,
        decreases n - i,
    {
        if s.get_char(i) == c {
            proof {
                lemma_first_char_is(s@, c, from as int, i as int);
            }
            return Some(i);
        }
        i += 1;
    }
    proof {
        lemma_first_char_skip(s@, c, from as int, n as int);
    }
    None
}

/// True when every character of `s` is one the header grammar can carry.
fn check_header_field(s: &str) -> (r: bool)
    ensures
        r == header_field_ok(s@),
{
    if !s.is_ascii() {
        return false;
    }
    let n = s.unicode_len();
    let mut i: usize = 0;
    while i < n
        invariant
            i <= n,
            n == s@.len(),
            forall|j: int| 0 <= j < i ==> s@[j] != '"' && s@[j] != '\n',
        decreases n - i,
    {
        let c = s.get_char(i);
        if c == '"' || c == '\n' {
            return false;
        }
        i += 1;
    }
    true
}

impl GdMetaHeader {
    /// Serializes `self` as the text header line.  Fails exactly when a
    /// field holds a character the line grammar cannot carry.
    pub fn write_to_gdron_header(&self) -> (r: Result<String, GdPropError>)
        ensures
            r is Ok <==> header_field_ok(self.gd_class@) && header_field_ok(self.uid@),
            r matches Ok(line) ==> line@ == gdron_line(self.gd_class@, self.uid@),
            r is Err ==> r == Result::<String, GdPropError>::Err(
                GdPropError::HeaderSerialize,
            ),
    {
        if !check_header_field(self.gd_class.as_str())
            || !check_header_field(self.uid.as_str()) {
            return Err(GdPropError::HeaderSerialize);
        }
        let mut line = String::from_str("(gd_class:\"");
        line.append(self.gd_class.as_str());
        line.append("\",uid:\"");
        line.append(self.uid.as_str());
        line.append("\")");
        proof {
            assert(line@ =~= gdron_line(self.gd_class@, self.uid@));
        }
        Ok(line)
    }

    /// Parses the text header line, accepting exactly the grammar that
    /// `write_to_gdron_header` emits.
    pub fn read_from_gdron_header(line: &str) -> (r: Result<GdMetaHeader, GdPropError>)
        ensures
            match spec_parse_gdron_line(line@) {
                Some((class, uid)) => r matches Ok(h) && h.gd_class@ == class && h.uid@
                    == uid,
                None => r matches Err(e) && e == GdPropError::HeaderDeserialize,
            },
    {
        proof {
            reveal_strlit("(gd_class:\"");
            reveal_strlit("\",uid:\"");
            reveal_strlit("\")");
        }
        let n = line.unicode_len();
        if !crate::format::str_starts_with(line, "(gd_class:\"") {
            proof {
                if line@.len() >= 11 {
                    assert(line@.subrange(0, 11) != "(gd_class:\""@);
                }
            }
            return Err(GdPropError::HeaderDeserialize);
        }
        let q1 = match find_char(line, '"', 11) {
            Some(i) => i,
            None => {
                return Err(GdPropError::HeaderDeserialize);
            },
        };
        let tail1 = line.substring_char(q1, n);
        if !crate::format::str_starts_with(tail1, "\",uid:\"") {
            proof {
                if q1 + 7 <= line@.len() {
                    assert(tail1@.subrange(0, 7) =~= line@.subrange(q1 as int, q1 + 7));
                }
            }
            return Err(GdPropError::HeaderDeserialize);
        }
        proof {
            assert(tail1@.subrange(0, 7) =~= line@.subrange(q1 as int, q1 + 7));
        }
        let q2 = match find_char(line, '"', q1 + 7) {
            Some(i) => i,
            None => {
                return Err(GdPropError::HeaderDeserialize);
            },
        };
        let tail2 = line.substring_char(q2, n);
        if !crate::format::str_starts_with(tail2, "\")") || !(q2 + 2 == n) {
            proof {
                if q2 + 2 == line@.len() {
                    assert(tail2@.subrange(0, 2) =~= line@.subrange(
                        q2 as int,
                        line@.len() as int,
                    ));
                    assert(tail2@ =~= tail2@.subrange(0, 2));
                }
            }
            return Err(GdPropError::HeaderDeserialize);
        }
        proof {
            assert(tail2@ =~= line@.subrange(q2 as int, line@.len() as int));
            assert(tail2@.subrange(0, 2) =~= tail2@);
            assert(line@.subrange(q2 as int, line@.len() as int) == "\")"@);
        }
        let gd_class = String::from_str(line.substring_char(11, q1));
        let uid = String::from_str(line.substring_char(q1 + 7, q2));
        Ok(GdMetaHeader { gd_class, uid })
    }
}

/// Parsing the text header line built from grammar-clean fields yields the
/// same fields back.
pub proof fn lemma_gdron_line_roundtrip(class: Seq<char>, uid: Seq<char>)
    requires
        header_field_ok(class),
        header_field_ok(uid),
    ensures
        spec_parse_gdron_line(gdron_line(class, uid)) == Some((class, uid)),
{
    reveal_strlit("(gd_class:\"");
    reveal_strlit("\",uid:\"");
    reveal_strlit("\")");
    let line = gdron_line(class, uid);
    let cl = class.len() as int;
    let ul = uid.len() as int;
    assert(line.len() == 20 + cl + ul);
    assert(line.subrange(0, 11) =~= "(gd_class:\""@);
    assert forall|j: int| 11 <= j < 11 + cl implies line[j] != '"' by {
        assert(line[j] == class[j - 11]);
    }
    assert(line[11 + cl] == '"') by {
        assert(line[11 + cl] == "\",uid:\""@[0]);
    }
    lemma_first_char_is(line, '"', 11, 11 + cl);
    let q1 = 11 + cl;
    assert(line.subrange(q1, q1 + 7) =~= "\",uid:\""@);
    assert forall|j: int| q1 + 7 <= j < q1 + 7 + ul implies line[j] != '"' by {
        assert(line[j] == uid[j - (q1 + 7)]);
    }
    assert(line[q1 + 7 + ul] == '"') by {
        assert(line[q1 + 7 + ul] == "\")"@[0]);
    }
    lemma_first_char_is(line, '"', q1 + 7, q1 + 7 + ul);
    let q2 = q1 + 7 + ul;
    assert(q2 + 2 == line.len());
    assert(line.subrange(q2, line.len() as int) =~= "\")"@);
    assert(line.subrange(11, q1) =~= class);
    assert(line.subrange(q1 + 7, q2) =~= uid);
}


/// If `s[k]` is `b` and nothing before it from `from` is, the search from
/// `from` finds `k`.
pub proof fn lemma_first_byte_is(s: Seq<u8>, b: u8, from: int, k: int)
    requires
        0 <= from <= k < s.len(),
        s[k] == b,
        forall|j: int| from <= j < k ==> s[j] != b,
    ensures
        first_byte_at(s, b, from) == k,
{
    lemma_first_byte_skip(s, b, from, k);
}

/// Parses the text container's header from the whole file: the first line
/// (up to the first newline byte, or the whole file when none occurs) must
/// decode as UTF-8 and follow the header line grammar; the returned offset
/// is where the payload begins.
pub open spec fn spec_parse_gdron_file(data: Seq<u8>) -> Option<(Seq<char>, Seq<char>, int)> {
    let nl = first_byte_at(data, 10, 0);
    let end = if nl >= 0 { nl } else { data.len() as int };
    let pstart = if nl >= 0 { nl + 1 } else { data.len() as int };
    if valid_utf8(data.subrange(0, end)) {
        match spec_parse_gdron_line(decode_utf8(data.subrange(0, end))) {
            Some((class, uid)) => Some((class, uid, pstart)),
            None => None,
        }
    } else {
        None
    }
}

/// The least index `>= from` of byte `b` in `data`, if any.
fn find_byte(data: &Vec<u8>, b: u8, from: usize) -> (r: Option<usize>)
    requires
        from <= data.len(),
    ensures
        match r {
            Some(i) => from <= i < data.len() && first_byte_at(data@, b, from as int) == i
                && data@[i as int] == b,
            None => first_byte_at(data@, b, from as int) == -1,
        },
{
    let n = data.len();
    let mut i: usize = from;
    while i < n
        invariant
            from <= i <= n,
            n == data.len(),
            forall|j: int| from <= j < i ==> data@[j] != b,
        decreases n - i,
    {
        if data[i] == b {
            proof {
                lemma_first_byte_is(data@, b, from as int, i as int);
            }
            return Some(i);
        }
        i += 1;
    }
    proof {
        lemma_first_byte_skip(data@, b, from as int, n as int);
    }
    None
}

impl GdMetaHeader {
    /// Reads the text container's header from the whole file's bytes,
    /// returning the header and the offset of the first payload byte.
    pub fn from_gfile_ron(bytes: &Vec<u8>) -> (r: Result<(GdMetaHeader, usize), GdPropError>)
        ensures
            match spec_parse_gdron_file(bytes@) {
                Some((class, uid, p)) => r matches Ok((h, q)) && h.gd_class@ == class
                    && h.uid@ == uid && q == p && q <= bytes.len(),
                None => r matches Err(e) && e == GdPropError::HeaderDeserialize,
            },
    {
        let (end, pstart) = match find_byte(bytes, 10, 0) {
            Some(i) => (i, i + 1),
            None => (bytes.len(), bytes.len()),
        };
        let mut line_bytes: Vec<u8> = Vec::new();
        let mut i: usize = 0;
        while i < end
            invariant
                i <= end,
                end <= bytes.len(),
                line_bytes@ =~= bytes@.subrange(0, i as int),
            decreases end - i,
        {
            line_bytes.push(bytes[i]);
            proof {
                assert(line_bytes@ =~= bytes@.subrange(0, i + 1));
            }
            i += 1;
        }
        proof {
            assert(line_bytes@ =~= bytes@.subrange(0, end as int));
        }
        let line = match bytes_to_string(line_bytes) {
            Some(s) => s,
            None => {
                return Err(GdPropError::HeaderDeserialize);
            },
        };
        proof {
            encode_utf8_decode_utf8(line@);
        }
        let h = GdMetaHeader::read_from_gdron_header(line.as_str())?;
        Ok((h, pstart))
    }

    /// Serializes the text container's header: the header line followed by
    /// a newline byte.  Fails exactly when a field holds a character the
    /// line grammar cannot carry.
    pub fn to_gfile_ron(&self) -> (r: Result<Vec<u8>, GdPropError>)
        ensures
            r is Ok <==> header_field_ok(self.gd_class@) && header_field_ok(self.uid@),
            r matches Ok(v) ==> v@ == encode_utf8(gdron_line(self.gd_class@, self.uid@))
                + seq![10u8],
            r is Err ==> r == Result::<Vec<u8>, GdPropError>::Err(
                GdPropError::HeaderSerialize,
            ),
    {
        let line = self.write_to_gdron_header()?;
        let mut out = line.as_str().as_bytes_vec();
        out.push(10);
        proof {
            assert(out@ =~= encode_utf8(gdron_line(self.gd_class@, self.uid@))
                + seq![10u8]);
        }
        Ok(out)
    }
}

/// A grammar-clean header line is ASCII and mentions no newline.
pub proof fn lemma_gdron_line_clean(class: Seq<char>, uid: Seq<char>)
    requires
        header_field_ok(class),
        header_field_ok(uid),
    ensures
        is_ascii_chars(gdron_line(class, uid)),
        forall|j: int|
            0 <= j < gdron_line(class, uid).len() ==> gdron_line(class, uid)[j] != '\n',
{
    reveal_strlit("(gd_class:\"");
    reveal_strlit("\",uid:\"");
    reveal_strlit("\")");
    let line = gdron_line(class, uid);
    let cl = class.len() as int;
    let ul = uid.len() as int;
    assert forall|j: int| 0 <= j < line.len() implies '\0' <= #[trigger] line[j]
        <= '\u{7f}' && line[j] != '\n' by {
        if j < 11 {
            assert(line[j] == "(gd_class:\""@[j]);
        } else if j < 11 + cl {
            assert(line[j] == class[j - 11]);
            assert('\0' <= class[j - 11] <= '\u{7f}');
        } else if j < 18 + cl {
            assert(line[j] == "\",uid:\""@[j - 11 - cl]);
        } else if j < 18 + cl + ul {
            assert(line[j] == uid[j - 18 - cl]);
            assert('\0' <= uid[j - 18 - cl] <= '\u{7f}');
        } else {
            assert(line[j] == "\")"@[j - 18 - cl - ul]);
        }
    }
}

/// Parsing the text container encoding, with any payload behind it, yields
/// the same fields back, and the payload starts right after the newline
/// that ends the header line.
pub proof fn lemma_gdron_file_roundtrip(class: Seq<char>, uid: Seq<char>, payload: Seq<u8>)
    requires
        header_field_ok(class),
        header_field_ok(uid),
    ensures
        spec_parse_gdron_file(
            encode_utf8(gdron_line(class, uid)) + seq![10u8] + payload,
        ) == Some(
            (class, uid, encode_utf8(gdron_line(class, uid)).len() + 1 as int),
        ),
{
    let line = gdron_line(class, uid);
    let enc = encode_utf8(line);
    let data = enc + seq![10u8] + payload;
    lemma_gdron_line_clean(class, uid);
    is_ascii_chars_encode_utf8(line);
    assert forall|j: int| 0 <= j < enc.len() implies data[j] != 10u8 by {
        assert(enc[j] == line[j] as u8);
        assert(line[j] != '\n');
        assert('\0' <= line[j] <= '\u{7f}');
        assert(line[j] as u8 != 10u8);
    }
    assert(data[enc.len() as int] == 10u8);
    lemma_first_byte_is(data, 10u8, 0, enc.len() as int);
    assert(data.subrange(0, enc.len() as int) =~= enc);
    encode_utf8_valid_utf8(line);
    encode_utf8_decode_utf8(line);
    lemma_gdron_line_roundtrip(class, uid);
}


/// The textual form of any id that fits an `i64` is a grammar-clean
/// header field of at most 26 characters, ASCII throughout.
pub proof fn lemma_uid_text_field_ok(id: int)
    requires
        id <= i64::MAX,
    ensures
        header_field_ok(crate::uid::spec_id_to_text(id)),
        crate::uid::spec_id_to_text(id).len() <= 26,
        encode_utf8(crate::uid::spec_id_to_text(id)).len() <= 26,
{
    let t = crate::uid::spec_id_to_text(id);
    if id >= 0 {
        reveal_strlit("uid://");
        crate::uid::lemma_dec_digits_value(id as nat);
        crate::uid::lemma_dec_digits_len_i64(id as nat);
        let d = crate::uid::dec_digits(id as nat);
        assert forall|j: int| 0 <= j < t.len() implies '\0' <= #[trigger] t[j] <= '\u{7f}'
            && t[j] != '"' && t[j] != '\n' by {
            if j < 6 {
                assert(t[j] == "uid://"@[j]);
            } else {
                assert(t[j] == d[j - 6]);
                assert(crate::uid::is_dec_digit(d[j - 6]));
            }
        }
        assert(t.len() == 6 + d.len());
    } else {
        reveal_strlit("uid://<invalid>");
        assert forall|j: int| 0 <= j < t.len() implies '\0' <= #[trigger] t[j] <= '\u{7f}'
            && t[j] != '"' && t[j] != '\n' by {
            assert(t[j] == "uid://<invalid>"@[j]);
        }
    }
    is_ascii_chars_encode_utf8(t);
}


/// Every character takes at least one byte to encode.
pub proof fn lemma_encode_utf8_len_ge(chars: Seq<char>)
    ensures
        encode_utf8(chars).len() >= chars.len(),
    decreases chars.len(),
{
    if chars.len() > 0 {
        lemma_encode_utf8_len_ge(chars.drop_first());
        vstd::utf8::char_is_scalar(chars[0]);
        assert(vstd::utf8::encode_scalar(chars[0] as u32).len() >= 1);
    }
}

} // verus!




