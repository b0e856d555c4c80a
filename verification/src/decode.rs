//! Decoding of the raw bytes that winget writes: UTF-8, UTF-8 with a byte-order mark, and
//! UTF-16 in either byte order (with a mark, or little-endian recognised by its NUL bytes).

use vstd::prelude::*;
use vstd::utf8::{
    decode_utf8, encode_scalar, encode_utf8, encode_utf8_decode_utf8, encode_utf8_valid_utf8,
    has_width_1_encoding, has_width_2_encoding, has_width_3_encoding, has_width_4_encoding,
    valid_utf8,
};
use crate::ansi::{spec_strip_ansi, strip_ansi_chars};
use crate::text::{chars_of, string_of};

verus! {

/// What `String::from_utf8_lossy` makes of a byte sequence that is not valid UTF-8 (each
/// invalid sequence replaced by U+FFFD).
pub uninterp spec fn utf8_replaced(bytes: Seq<u8>) -> Seq<char>;

/// What `String::from_utf8_lossy` makes of a byte sequence: valid UTF-8 decoded as it is,
/// anything else with its invalid sequences replaced.
pub open spec fn utf8_lossy(bytes: Seq<u8>) -> Seq<char> {
    if valid_utf8(bytes) {
        decode_utf8(bytes)
    } else {
        utf8_replaced(bytes)
    }
}

/// A UTF-16 high (leading) surrogate.
pub open spec fn is_high_surrogate(u: u16) -> bool {
    0xD800 <= u <= 0xDBFF
}

/// A UTF-16 low (trailing) surrogate.
pub open spec fn is_low_surrogate(u: u16) -> bool {
    0xDC00 <= u <= 0xDFFF
}

/// The character that a high and a low surrogate stand for together.
pub open spec fn surrogate_pair_char(high: u16, low: u16) -> char {
    ((0x10000 + (high - 0xD800) * 0x400 + (low - 0xDC00)) as u32) as char
}

/// UTF-16 decoding as `String::from_utf16_lossy` does it: a unit that is not a surrogate is
/// the character of that code; a high surrogate followed by a low one is the character
/// they encode together; any other surrogate is U+FFFD.
pub open spec fn utf16_lossy(units: Seq<u16>) -> Seq<char>
    decreases units.len(),
{
    if units.len() == 0 {
        seq![]
    } else if units.len() >= 2 && is_high_surrogate(units[0]) && is_low_surrogate(units[1]) {
        seq![surrogate_pair_char(units[0], units[1])] + utf16_lossy(units.skip(2))
    } else if is_high_surrogate(units[0]) || is_low_surrogate(units[0]) {
        seq!['\u{FFFD}'] + utf16_lossy(units.drop_first())
    } else {
        seq![(units[0] as u32) as char] + utf16_lossy(units.drop_first())
    }
}

/// `String::from_utf8_lossy`: decodes UTF-8, putting U+FFFD in place of invalid sequences.
/// Trusted to decode valid UTF-8 as it is (as its documentation says), and to be a function
/// of the bytes alone otherwise.
#[verifier::external_body]
pub(crate) fn from_utf8_lossy(bytes: &[u8]) -> (r: String)
    ensures
        r@ == utf8_lossy(bytes@),
        !valid_utf8(bytes@) ==> r@ == utf8_replaced(bytes@),
{
    String::from_utf8_lossy(bytes).into_owned()
}

/// `String::from_utf16_lossy`: decodes UTF-16 code units, putting U+FFFD in place of
/// unpaired surrogates, as its documentation says.
#[verifier::external_body]
fn from_utf16_lossy(units: &[u16]) -> (r: String)
    ensures
        r@ == utf16_lossy(units@),
{
    String::from_utf16_lossy(units)
}

/// Pairs of bytes read as little-endian 16-bit units; an odd last byte is dropped.
pub open spec fn le_units(b: Seq<u8>) -> Seq<u16> {
    Seq::new(b.len() / 2, |i: int| (b[2 * i] as int + 256 * b[2 * i + 1] as int) as u16)
}

/// Pairs of bytes read as big-endian 16-bit units; an odd last byte is dropped.
pub open spec fn be_units(b: Seq<u8>) -> Seq<u16> {
    Seq::new(b.len() / 2, |i: int| (256 * b[2 * i] as int + b[2 * i + 1] as int) as u16)
}

/// Whether `b` begins with the bytes of `prefix`.
pub open spec fn starts_with_bytes(b: Seq<u8>, prefix: Seq<u8>) -> bool {
    prefix.len() <= b.len() && b.take(prefix.len() as int) == prefix
}

/// The number of NUL bytes in `b`.
pub open spec fn nul_count(b: Seq<u8>) -> nat {
    b.filter(|x: u8| x == 0).len()
}

/// Whether `b`, which has no byte-order mark, looks like little-endian UTF-16: at least a
/// third of its first 64 bytes are NUL.
pub open spec fn looks_utf16le(b: Seq<u8>) -> bool {
    let sample = b.take(if b.len() < 64 { b.len() as int } else { 64 });
    sample.len() > 0 && nul_count(sample) * 3 >= sample.len()
}

/// The text in the bytes that winget wrote.
pub open spec fn spec_decode_bytes(b: Seq<u8>) -> Seq<char> {
    if starts_with_bytes(b, seq![0xFFu8, 0xFEu8]) {
        utf16_lossy(le_units(b.skip(2)))
    } else if starts_with_bytes(b, seq![0xFEu8, 0xFFu8]) {
        utf16_lossy(be_units(b.skip(2)))
    } else if starts_with_bytes(b, seq![0xEFu8, 0xBBu8, 0xBFu8]) {
        utf8_lossy(b.skip(3))
    } else if looks_utf16le(b) {
        utf16_lossy(le_units(b))
    } else {
        utf8_lossy(b)
    }
}

/// `s` with every carriage return turned into a line feed.
pub open spec fn cr_to_lf(s: Seq<char>) -> Seq<char> {
    s.map_values(|c: char| if c == '\r' { '\n' } else { c })
}

/// The text of winget's output, ready for the table parser: decoded, without ANSI
/// sequences, with carriage returns turned into line feeds.
pub open spec fn spec_decode(b: Seq<u8>) -> Seq<char> {
    cr_to_lf(spec_strip_ansi(spec_decode_bytes(b)))
}

/// `b[start..]` as a new vector.
fn bytes_from(b: &[u8], start: usize) -> (r: Vec<u8>)
    requires
        start <= b@.len(),
    ensures
        r@ == b@.skip(start as int),
{
    let mut out: Vec<u8> = Vec::new();
    let mut i = start;
    while i < b.len()
        invariant
            start <= i <= b@.len(),
            out@ == b@.subrange(start as int, i as int),
        decreases b@.len() - i,
    {
        out.push(b[i]);
        i = i + 1;
        assert(out@ =~= b@.subrange(start as int, i as int));
    }
    assert(out@ =~= b@.skip(start as int));
    out
}

/// The 16-bit units of `b[start..]`, little-endian when `little` holds, big-endian otherwise.
fn units_from(b: &[u8], start: usize, little: bool) -> (r: Vec<u16>)
    requires
        start <= b@.len(),
    ensures
        little ==> r@ == le_units(b@.skip(start as int)),
        !little ==> r@ == be_units(b@.skip(start as int)),
{
    let ghost t = b@.skip(start as int);
    let blen = b.len();
    let n = (blen - start) / 2;
    let mut out: Vec<u16> = Vec::new();
    let mut k: usize = 0;
    while k < n
        invariant
            start <= b@.len(),
            blen == b@.len(),
            t == b@.skip(start as int),
            t.len() == b@.len() - start,
            n == t.len() / 2,
            2 * n <= t.len(),
            k <= n,
            out@.len() == k,
            little ==> forall|j: int| 0 <= j < k ==> out@[j] == #[trigger] le_units(t)[j],
            !little ==> forall|j: int| 0 <= j < k ==> out@[j] == #[trigger] be_units(t)[j],
        decreases n - k,
    {
        let lo = start + 2 * k;
        let b0 = b[lo] as u16;
        let b1 = b[lo + 1] as u16;
        assert(t[2 * k as int] == b@[lo as int] && t[2 * k + 1] == b@[lo + 1]);
        let u: u16 = if little {
            b0 + 256 * b1
        } else {
            256 * b0 + b1
        };
        out.push(u);
        k = k + 1;
    }
    if little {
        assert(out@ =~= le_units(t));
    } else {
        assert(out@ =~= be_units(t));
    }
    out
}

/// Whether at least a third of the first 64 bytes of `b` are NUL.
fn mostly_nul(b: &[u8]) -> (r: bool)
    ensures
        r == looks_utf16le(b@),
{
    let n: usize = if b.len() < 64 {
        b.len()
    } else {
        64
    };
    let ghost sample = b@.take(n as int);
    let mut nul: usize = 0;
    let mut i: usize = 0;
    while i < n
        invariant
            n <= b@.len(),
            n <= 64,
            i <= n,
            sample == b@.take(n as int),
            nul == nul_count(b@.take(i as int)),
            nul <= i,
        decreases n - i,
    {
        assert(b@.take(i + 1) =~= b@.take(i as int).push(b@[i as int]));
        proof {
            b@.take(i as int).lemma_filter_push(b@[i as int], |x: u8| x == 0);
        }
        if b[i] == 0 {
            nul = nul + 1;
        }
        i = i + 1;
    }
    n > 0 && nul * 3 >= n
}

/// Decodes bytes as little-endian UTF-16 (an odd last byte is dropped).
pub fn utf16le(bytes: &[u8]) -> (r: String)
    ensures
        r@ == utf16_lossy(le_units(bytes@)),
{
    let units = units_from(bytes, 0, true);
    assert(bytes@.skip(0) =~= bytes@);
    from_utf16_lossy(units.as_slice())
}

/// Decodes winget's output, whatever encoding it came in.
pub fn decode_bytes(bytes: &[u8]) -> (r: String)
    ensures
        r@ == spec_decode_bytes(bytes@),
{
    let n = bytes.len();
    if n >= 2 && bytes[0] == 0xFF && bytes[1] == 0xFE {
        assert(starts_with_bytes(bytes@, seq![0xFFu8, 0xFEu8])) by {
            assert(bytes@.take(2) =~= seq![0xFFu8, 0xFEu8]);
        }
        let rest = bytes_from(bytes, 2);
        return utf16le(rest.as_slice());
    }
    assert(!starts_with_bytes(bytes@, seq![0xFFu8, 0xFEu8])) by {
        if n >= 2 && bytes@.take(2) == seq![0xFFu8, 0xFEu8] {
            assert(bytes@.take(2)[0] == bytes@[0] && bytes@.take(2)[1] == bytes@[1]);
        }
    }
    if n >= 2 && bytes[0] == 0xFE && bytes[1] == 0xFF {
        assert(starts_with_bytes(bytes@, seq![0xFEu8, 0xFFu8])) by {
            assert(bytes@.take(2) =~= seq![0xFEu8, 0xFFu8]);
        }
        let units = units_from(bytes, 2, false);
        return from_utf16_lossy(units.as_slice());
    }
    assert(!starts_with_bytes(bytes@, seq![0xFEu8, 0xFFu8])) by {
        if n >= 2 && bytes@.take(2) == seq![0xFEu8, 0xFFu8] {
            assert(bytes@.take(2)[0] == bytes@[0] && bytes@.take(2)[1] == bytes@[1]);
        }
    }
    if n >= 3 && bytes[0] == 0xEF && bytes[1] == 0xBB && bytes[2] == 0xBF {
        assert(starts_with_bytes(bytes@, seq![0xEFu8, 0xBBu8, 0xBFu8])) by {
            assert(bytes@.take(3) =~= seq![0xEFu8, 0xBBu8, 0xBFu8]);
        }
        let rest = bytes_from(bytes, 3);
        return from_utf8_lossy(rest.as_slice());
    }
    assert(!starts_with_bytes(bytes@, seq![0xEFu8, 0xBBu8, 0xBFu8])) by {
        if n >= 3 && bytes@.take(3) == seq![0xEFu8, 0xBBu8, 0xBFu8] {
            assert(bytes@.take(3)[0] == bytes@[0] && bytes@.take(3)[1] == bytes@[1]
                && bytes@.take(3)[2] == bytes@[2]);
        }
    }
    if mostly_nul(bytes) {
        return utf16le(bytes);
    }
    from_utf8_lossy(bytes)
}

/// Turns every carriage return into a line feed.
fn cr_to_lf_chars(v: &Vec<char>) -> (r: Vec<char>)
    ensures
        r@ == cr_to_lf(v@),
{
    let mut out: Vec<char> = Vec::new();
    let mut i: usize = 0;
    while i < v.len()
        invariant
            i <= v.len(),
            out@ == cr_to_lf(v@.take(i as int)),
        decreases v.len() - i,
    {
        let c = if v[i] == '\r' {
            '\n'
        } else {
            v[i]
        };
        out.push(c);
        i = i + 1;
        assert(out@ =~= cr_to_lf(v@.take(i as int)));
    }
    assert(v@.take(v.len() as int) =~= v@);
    out
}

/// winget's output as text for the table parser: decoded, stripped of ANSI sequences, with
/// carriage returns turned into line feeds. No carriage return is left.
pub fn decode(bytes: &[u8]) -> (r: String)
    ensures
        r@ == spec_decode(bytes@),
        forall|i: int| 0 <= i < r@.len() ==> r@[i] != '\r',
{
    let text = decode_bytes(bytes);
    let chars = chars_of(text.as_str());
    let stripped = strip_ansi_chars(&chars);
    let out = cr_to_lf_chars(&stripped);
    string_of(&out)
}

/// The UTF-16 encoding of a text (`str::encode_utf16`): a character below U+10000 is one unit
/// of its code, any other is a high and a low surrogate.
pub open spec fn encode_utf16(s: Seq<char>) -> Seq<u16>
    decreases s.len(),
{
    if s.len() == 0 {
        seq![]
    } else {
        let v = s[0] as u32;
        (if v < 0x10000 {
            seq![v as u16]
        } else {
            seq![(0xD800 + (v - 0x10000) / 0x400) as u16, (0xDC00 + (v - 0x10000) % 0x400) as u16]
        }) + encode_utf16(s.drop_first())
    }
}

/// 16-bit units written as little-endian byte pairs.
pub open spec fn le_bytes(units: Seq<u16>) -> Seq<u8> {
    Seq::new(
        2 * units.len(),
        |j: int|
            if j % 2 == 0 {
                (units[j / 2] % 256) as u8
            } else {
                (units[j / 2] / 256) as u8
            },
    )
}

/// 16-bit units written as big-endian byte pairs.
pub open spec fn be_bytes(units: Seq<u16>) -> Seq<u8> {
    Seq::new(
        2 * units.len(),
        |j: int|
            if j % 2 == 0 {
                (units[j / 2] / 256) as u8
            } else {
                (units[j / 2] % 256) as u8
            },
    )
}

/// Decoding the UTF-16 encoding of a text gives the text back.
proof fn lemma_utf16_decode_encode(s: Seq<char>)
    ensures
        utf16_lossy(encode_utf16(s)) == s,
    decreases s.len(),
{
    if s.len() > 0 {
        let c = s[0];
        let v = c as u32;
        let tail = encode_utf16(s.drop_first());
        let e = encode_utf16(s);
        vstd::utf8::char_is_scalar(c);
        vstd::utf8::char_u32_cast(c, v);
        lemma_utf16_decode_encode(s.drop_first());
        if v < 0x10000 {
            let u = v as u16;
            assert(u == v);
            assert(e == seq![u] + tail);
            assert(e[0] == u);
            assert(!is_high_surrogate(u) && !is_low_surrogate(u));
            assert(e.drop_first() =~= tail);
            assert((u as u32) == v);
        } else {
            let w: int = v - 0x10000;
            assert(0 <= w <= 0xFFFFF);
            assert(0 <= w / 0x400 <= 0x3FF && 0 <= w % 0x400 < 0x400 && w == (w / 0x400) * 0x400 + w
                % 0x400) by (nonlinear_arith)
                requires
                    0 <= w <= 0xFFFFF,
            ;
            let h = (0xD800 + w / 0x400) as u16;
            let l = (0xDC00 + w % 0x400) as u16;
            assert(h == 0xD800 + w / 0x400);
            assert(l == 0xDC00 + w % 0x400);
            assert(e == seq![h, l] + tail);
            assert(e[0] == h && e[1] == l);
            assert(e.skip(2) =~= tail);
            assert(0x10000 + (h - 0xD800) * 0x400 + (l - 0xDC00) == v);
            assert(surrogate_pair_char(h, l) == c);
        }
        assert(utf16_lossy(e) =~= s);
    }
}

/// Reading little-endian byte pairs back as units gives the units.
proof fn lemma_le_bytes_units(u: Seq<u16>)
    ensures
        le_units(le_bytes(u)) == u,
        be_units(be_bytes(u)) == u,
{
    let b = le_bytes(u);
    let c = be_bytes(u);
    assert(b.len() / 2 == u.len());
    assert forall|i: int| 0 <= i < u.len() implies le_units(b)[i] == u[i] && be_units(c)[i] == u[i] by {
        let x = u[i];
        assert((2 * i) % 2 == 0 && (2 * i) / 2 == i);
        assert((2 * i + 1) % 2 == 1 && (2 * i + 1) / 2 == i);
        assert(b[2 * i] == (x % 256) as u8);
        assert(b[2 * i + 1] == (x / 256) as u8);
        assert(c[2 * i] == (x / 256) as u8);
        assert(c[2 * i + 1] == (x % 256) as u8);
        assert(x % 256 < 256 && x / 256 < 256 && x == x % 256 + 256 * (x / 256)) by (nonlinear_arith)
            requires
                0 <= x < 0x10000,
        ;
    }
    assert(le_units(b) =~= u);
    assert(be_units(c) =~= u);
}

/// UTF-16 with a byte-order mark reads back as the text that was encoded, in either byte
/// order.
pub proof fn lemma_utf16_round_trip(s: Seq<char>)
    ensures
        utf16_lossy(encode_utf16(s)) == s,
        spec_decode_bytes(seq![0xFFu8, 0xFEu8] + le_bytes(encode_utf16(s))) == s,
        spec_decode_bytes(seq![0xFEu8, 0xFFu8] + be_bytes(encode_utf16(s))) == s,
{
    let u = encode_utf16(s);
    lemma_utf16_decode_encode(s);
    lemma_le_bytes_units(u);
    let bl = seq![0xFFu8, 0xFEu8] + le_bytes(u);
    let bb = seq![0xFEu8, 0xFFu8] + be_bytes(u);
    assert(bl.take(2) =~= seq![0xFFu8, 0xFEu8]);
    assert(bl.skip(2) =~= le_bytes(u));
    assert(bb.take(2) =~= seq![0xFEu8, 0xFFu8]);
    assert(bb.skip(2) =~= be_bytes(u));
    assert(bb.take(2) != seq![0xFFu8, 0xFEu8]) by {
        assert(bb.take(2)[0] == 0xFEu8);
    }
}

/// Facts on the UTF-8 bytes of one character: no NUL byte unless it is U+0000, a first byte
/// below 0xF8 (so never 0xFE or 0xFF), and EF BB BF only for U+FEFF.
proof fn lemma_scalar_bytes(c: char)
    ensures
        ({
            let v = c as u32;
            let b = encode_scalar(v);
            &&& 1 <= b.len() <= 4
            &&& b[0] < 0xF8
            &&& b.len() < 3 ==> b[0] < 0xE0
            &&& v != 0 ==> forall|k: int| 0 <= k < b.len() ==> #[trigger] b[k] != 0
            &&& (b.len() >= 3 && b[0] == 0xEF && b[1] == 0xBB && b[2] == 0xBF) ==> v == 0xFEFF
        }),
{
    let v = c as u32;
    vstd::utf8::char_is_scalar(c);
    if has_width_1_encoding(v) {
        assert(v <= 0x7F ==> ((v & 0x7F) as u8) == v && ((v & 0x7F) as u8) < 0xF8) by (bit_vector);
    } else if has_width_2_encoding(v) {
        assert(0x80 <= v <= 0x7FF ==> 0xC0 <= (0xC0 | ((((v >> 6) & 0x1F) as u8))) && (0xC0 | ((v >> 6)
            & 0x1F) as u8) <= 0xDF && (0x80 | ((v & 0x3F) as u8)) >= 0x80) by (bit_vector);
    } else if has_width_3_encoding(v) {
        assert(0x800 <= v <= 0xFFFF ==> 0xE0 <= (0xE0 | ((((v >> 12) & 0x0F) as u8))) && (0xE0 | (((v >> 12) & 0x0F) as u8)) <= 0xEF && (0x80 | ((((v >> 6) & 0x3F) as u8))) >= 0x80 && (0x80 | ((v & 0x3F) as u8)) >= 0x80) by (bit_vector);
        assert(v <= 0xFFFF && (0xE0 | ((((v >> 12) & 0x0F) as u8))) == 0xEF && (0x80 | ((v >> 6) & 0x3F)
            as u8) == 0xBB && (0x80 | ((v & 0x3F) as u8)) == 0xBF ==> v == 0xFEFF) by (bit_vector);
    } else {
        assert(has_width_4_encoding(v));
        assert(0x10000 <= v <= 0x10FFFF ==> 0xF0 <= (0xF0 | ((((v >> 18) & 0x7) as u8))) && (0xF0 | (((v >> 18) & 0x7) as u8)) <= 0xF7 && (0x80 | ((((v >> 12) & 0x3F) as u8))) >= 0x80 && (0x80 | (((v >> 6) & 0x3F) as u8)) >= 0x80 && (0x80 | ((v & 0x3F) as u8)) >= 0x80) by (bit_vector);
    }
}

/// The UTF-8 bytes of a text without U+0000 hold no NUL byte.
proof fn lemma_encode_utf8_no_nul(s: Seq<char>)
    requires
        forall|k: int| 0 <= k < s.len() ==> s[k] != '\u{0}',
    ensures
        forall|k: int| 0 <= k < encode_utf8(s).len() ==> #[trigger] encode_utf8(s)[k] != 0,
    decreases s.len(),
{
    if s.len() > 0 {
        let head = encode_scalar(s[0] as u32);
        let rest = encode_utf8(s.drop_first());
        lemma_encode_utf8_no_nul(s.drop_first());
        lemma_scalar_bytes(s[0]);
        assert((s[0] as u32) != 0) by {
            if (s[0] as u32) == 0 {
                assert(('\u{0}' as u32) == 0);
                vstd::utf8::char_u32_cast(s[0], 0u32);
                vstd::utf8::char_u32_cast('\u{0}', 0u32);
            }
        }
        assert(encode_utf8(s) == head + rest);
        assert forall|k: int| 0 <= k < encode_utf8(s).len() implies #[trigger] encode_utf8(s)[k] != 0 by {
            if k < head.len() {
                assert(encode_utf8(s)[k] == head[k]);
            } else {
                assert(encode_utf8(s)[k] == rest[k - head.len()]);
            }
        }
    }
}

/// Bytes without a NUL have no NUL to count.
proof fn lemma_no_nul_count(b: Seq<u8>)
    requires
        forall|k: int| 0 <= k < b.len() ==> b[k] != 0,
    ensures
        nul_count(b) == 0,
    decreases b.len(),
{
    reveal(Seq::filter);
    if b.len() > 0 {
        lemma_no_nul_count(b.drop_last());
    }
}

/// UTF-8 text reads back as itself when nothing in it could be taken for another encoding:
/// it holds no U+0000 (whose NUL bytes suggest UTF-16) and does not begin with U+FEFF
/// (whose bytes are the UTF-8 byte-order mark).
pub proof fn lemma_utf8_round_trip(s: Seq<char>)
    requires
        forall|k: int| 0 <= k < s.len() ==> s[k] != '\u{0}',
        s.len() > 0 ==> s[0] != '\u{FEFF}',
    ensures
        spec_decode_bytes(encode_utf8(s)) == s,
{
    let b = encode_utf8(s);
    encode_utf8_valid_utf8(s);
    encode_utf8_decode_utf8(s);
    lemma_encode_utf8_no_nul(s);
    if s.len() > 0 {
        let head = encode_scalar(s[0] as u32);
        lemma_scalar_bytes(s[0]);
        assert(b == head + encode_utf8(s.drop_first()));
        assert(b[0] == head[0]);
        assert(!starts_with_bytes(b, seq![0xFFu8, 0xFEu8])) by {
            if b.len() >= 2 && b.take(2) == seq![0xFFu8, 0xFEu8] {
                assert(b.take(2)[0] == b[0]);
            }
        }
        assert(!starts_with_bytes(b, seq![0xFEu8, 0xFFu8])) by {
            if b.len() >= 2 && b.take(2) == seq![0xFEu8, 0xFFu8] {
                assert(b.take(2)[0] == b[0]);
            }
        }
        assert(!starts_with_bytes(b, seq![0xEFu8, 0xBBu8, 0xBFu8])) by {
            if b.len() >= 3 && b.take(3) == seq![0xEFu8, 0xBBu8, 0xBFu8] {
                assert(b.take(3)[0] == b[0]);
                assert(b[0] == 0xEF);
                assert(head.len() >= 3);
                assert(b[1] == head[1] && b[2] == head[2]);
                assert(b.take(3)[1] == b[1] && b.take(3)[2] == b[2]);
                vstd::utf8::char_u32_cast(s[0], 0xFEFFu32);
            }
        }
    }
    let n: int = if b.len() < 64 { b.len() as int } else { 64 };
    lemma_no_nul_count(b.take(n));
    assert(!looks_utf16le(b));
}

} // verus!
