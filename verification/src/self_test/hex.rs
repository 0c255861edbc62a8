//! Hexadecimal text of Vulkan device UUIDs, as the self-test processes pass
//! them to each other on the command line and in the handshake.

use vstd::prelude::*;
use vstd::utf8::{encode_scalar, encode_utf8, is_continuation_byte};

use crate::text::{digit_char, digit_str, hex_digit_chars};

verus! {

/// Whether `char::is_whitespace` holds: the Unicode `White_Space` property.
pub open spec fn is_whitespace(c: char) -> bool {
    ||| c == ' '
    ||| ('\u{9}' <= c && c <= '\u{d}')
    ||| c == '\u{85}'
    ||| c == '\u{a0}'
    ||| c == '\u{1680}'
    ||| ('\u{2000}' <= c && c <= '\u{200a}')
    ||| c == '\u{2028}'
    ||| c == '\u{2029}'
    ||| c == '\u{202f}'
    ||| c == '\u{205f}'
    ||| c == '\u{3000}'
}

/// `char::is_whitespace`.
pub fn is_whitespace_char(c: char) -> (r: bool)
    ensures
        r == is_whitespace(c),
{
    c == ' ' || ('\u{9}' <= c && c <= '\u{d}') || c == '\u{85}' || c == '\u{a0}' || c == '\u{1680}'
        || ('\u{2000}' <= c && c <= '\u{200a}') || c == '\u{2028}' || c == '\u{2029}' || c == '\u{202f}'
        || c == '\u{205f}' || c == '\u{3000}'
}

/// The characters of a UUID text that count: all but whitespace and '-'.
pub open spec fn uuid_chars(s: Seq<char>) -> Seq<char>
    decreases s.len(),
{
    if s.len() == 0 {
        Seq::empty()
    } else {
        let rest = uuid_chars(s.drop_last());
        if !is_whitespace(s.last()) && s.last() != '-' {
            rest.push(s.last())
        } else {
            rest
        }
    }
}

/// The value of a hexadecimal digit byte of either case.
pub open spec fn hex_value(b: u8) -> Option<nat> {
    if 0x30 <= b && b <= 0x39 {
        Some((b - 0x30) as nat)
    } else if 0x61 <= b && b <= 0x66 {
        Some((b - 0x61 + 10) as nat)
    } else if 0x41 <= b && b <= 0x46 {
        Some((b - 0x41 + 10) as nat)
    } else {
        None
    }
}

/// What `u8::from_str_radix(_, 16)` gives for a two-byte text: a leading
/// '+' sign is allowed before a single digit.
pub open spec fn pair_value(b0: u8, b1: u8) -> Option<u8> {
    if b0 == 0x2b {
        match hex_value(b1) {
            Some(v) => Some(v as u8),
            None => None,
        }
    } else {
        match (hex_value(b0), hex_value(b1)) {
            (Some(h), Some(l)) => Some((h * 16 + l) as u8),
            _ => None,
        }
    }
}

/// Byte offset `k` of UTF-8 text `b` starts a character (or ends the text),
/// as `str::is_char_boundary` decides it.
pub open spec fn on_boundary(b: Seq<u8>, k: int) -> bool {
    k == b.len() || (0 <= k < b.len() && !is_continuation_byte(b[k]))
}

/// The outcome of reading a UUID text.
pub enum UuidOutcome {
    /// The sixteen bytes it spells.
    Value(Seq<u8>),
    /// The cleaned text is not 32 bytes long; it is this many.
    WrongLength(nat),
    /// A byte pair is not a hexadecimal number.
    InvalidHex,
    /// A byte pair cuts through a multi-byte character: string slicing
    /// panics there.
    Panics,
}

/// Reads the byte pairs from pair `i` on, stopping at the first pair that
/// cuts a character or is not a hexadecimal number.
pub open spec fn pairs_from(b: Seq<u8>, i: nat) -> UuidOutcome
    decreases 16 - i,
{
    if i >= 16 {
        UuidOutcome::Value(Seq::empty())
    } else if !on_boundary(b, 2 * i as int) || !on_boundary(b, 2 * i as int + 2) {
        UuidOutcome::Panics
    } else {
        match pair_value(b[2 * i as int], b[2 * i as int + 1]) {
            None => UuidOutcome::InvalidHex,
            Some(v) => match pairs_from(b, i + 1) {
                UuidOutcome::Value(rest) => UuidOutcome::Value(seq![v] + rest),
                other => other,
            },
        }
    }
}

/// What reading the UUID text `s` gives: whitespace and '-' are dropped,
/// the rest must be 32 bytes of UTF-8, read as sixteen two-byte numbers.
pub open spec fn uuid_outcome(s: Seq<char>) -> UuidOutcome {
    let b = encode_utf8(uuid_chars(s));
    if b.len() != 32 {
        UuidOutcome::WrongLength(b.len())
    } else {
        pairs_from(b, 0)
    }
}

/// Why a UUID text was refused.
#[derive(Debug, Clone, Copy, PartialEq, Eq, Structural)]
pub enum UuidError {
    /// Not 32 hexadecimal characters once whitespace and '-' are dropped;
    /// holds the byte length found.
    WrongLength(usize),
    /// A character pair is not a hexadecimal number.
    InvalidHex,
}

/// `prefix` in front of a successful outcome; other outcomes unchanged.
pub open spec fn prepend_value(prefix: Seq<u8>, o: UuidOutcome) -> UuidOutcome {
    match o {
        UuidOutcome::Value(rest) => UuidOutcome::Value(prefix + rest),
        other => other,
    }
}

/// The UTF-8 encoding of a sequence with one more character ends with that
/// character's encoding.
pub proof fn lemma_encode_utf8_push(s: Seq<char>, c: char)
    ensures
        encode_utf8(s.push(c)) == encode_utf8(s) + encode_scalar(c as u32),
    decreases s.len(),
{
    if s.len() == 0 {
        assert(s.push(c).drop_first() =~= Seq::<char>::empty());
        assert(encode_utf8(Seq::<char>::empty()) =~= Seq::<u8>::empty());
        assert(encode_utf8(s.push(c)) =~= encode_scalar(c as u32));
    } else {
        assert(s.push(c).drop_first() =~= s.drop_first().push(c));
        assert(s.push(c)[0] == s[0]);
        lemma_encode_utf8_push(s.drop_first(), c);
        assert(encode_utf8(s.push(c)) =~= encode_utf8(s) + encode_scalar(c as u32));
    }
}

/// Appends the UTF-8 encoding of `c` to `out`.
fn push_utf8(out: &mut Vec<u8>, c: char)
    ensures
        final(out)@ == old(out)@ + encode_scalar(c as u32),
{
    let v: u32 = c as u32;
    proof {
        vstd::utf8::char_is_scalar(c);
    }
    if v <= 0x7f {
        out.push((v & 0x7f) as u8);
        assert(out@ =~= old(out)@ + encode_scalar(c as u32));
    } else if v <= 0x7ff {
        out.push(0xc0 | ((v >> 6) & 0x1f) as u8);
        out.push(0x80 | (v & 0x3f) as u8);
        assert(out@ =~= old(out)@ + encode_scalar(c as u32));
    } else if v <= 0xffff {
        out.push(0xe0 | ((v >> 12) & 0x0f) as u8);
        out.push(0x80 | ((v >> 6) & 0x3f) as u8);
        out.push(0x80 | (v & 0x3f) as u8);
        assert(out@ =~= old(out)@ + encode_scalar(c as u32));
    } else {
        out.push(0xf0 | ((v >> 18) & 0x7) as u8);
        out.push(0x80 | ((v >> 12) & 0x3f) as u8);
        out.push(0x80 | ((v >> 6) & 0x3f) as u8);
        out.push(0x80 | (v & 0x3f) as u8);
        assert(out@ =~= old(out)@ + encode_scalar(c as u32));
    }
}

/// The value of a hexadecimal digit byte of either case.
fn hex_digit_value(b: u8) -> (r: Option<u8>)
    ensures
        match r {
            Some(v) => hex_value(b) == Some(v as nat),
            None => hex_value(b) is None,
        },
{
    if 0x30 <= b && b <= 0x39 {
        Some(b - 0x30)
    } else if 0x61 <= b && b <= 0x66 {
        Some(b - 0x61 + 10)
    } else if 0x41 <= b && b <= 0x46 {
        Some(b - 0x41 + 10)
    } else {
        None
    }
}

/// `u8::from_str_radix` with radix sixteen on a two-byte text.
fn parse_pair(b0: u8, b1: u8) -> (r: Option<u8>)
    ensures
        r == pair_value(b0, b1),
{
    if b0 == 0x2b {
        match hex_digit_value(b1) {
            Some(v) => Some(v),
            None => None,
        }
    } else {
        match (hex_digit_value(b0), hex_digit_value(b1)) {
            (Some(h), Some(l)) => Some(h * 16 + l),
            _ => None,
        }
    }
}

/// The UTF-8 bytes of the characters of a UUID text that count.
fn uuid_bytes(s: &str) -> (bytes: Vec<u8>)
    ensures
        bytes@ == encode_utf8(uuid_chars(s@)),
{
    let n = s.unicode_len();
    let mut bytes: Vec<u8> = Vec::new();
    let mut i: usize = 0;
    while i < n
        invariant
            n == s@.len(),
            i <= n,
            bytes@ == encode_utf8(uuid_chars(s@.take(i as int))),
        decreases n - i,
    {
        let c = s.get_char(i);
        let ghost before = uuid_chars(s@.take(i as int));
        proof {
            let t = s@.take(i + 1);
            assert(t.drop_last() =~= s@.take(i as int));
            assert(t.last() == c);
        }
        if !is_whitespace_char(c) && c != '-' {
            push_utf8(&mut bytes, c);
            proof {
                lemma_encode_utf8_push(before, c);
            }
        }
        i = i + 1;
    }
    assert(s@.take(n as int) =~= s@);
    bytes
}

/// Whether reading the UUID text `s` panics: the cleaned text is 32 bytes
/// long and, before any pair is found not to be a hexadecimal number, a
/// pair cuts through a multi-byte character.
pub fn uuid_hex_panics(s: &str) -> (r: bool)
    ensures
        r == (uuid_outcome(s@) is Panics),
{
    let bytes = uuid_bytes(s);
    let ghost b = bytes@;
    if bytes.len() != 32 {
        return false;
    }
    let mut k: usize = 0;
    while k < 16
        invariant
            k <= 16,
            bytes@ == b,
            b.len() == 32,
            b == encode_utf8(uuid_chars(s@)),
            (pairs_from(b, 0) is Panics) == (pairs_from(b, k as nat) is Panics),
        decreases 16 - k,
    {
        let lo = bytes[2 * k];
        let hi_ok = 2 * k + 2 == 32 || !(0x80 <= bytes[2 * k + 2] && bytes[2 * k + 2] <= 0xbf);
        if (0x80 <= lo && lo <= 0xbf) || !hi_ok {
            assert(!(on_boundary(b, 2 * k as int) && on_boundary(b, 2 * k + 2)));
            return true;
        }
        match parse_pair(bytes[2 * k], bytes[2 * k + 1]) {
            None => {
                return false;
            },
            Some(v) => {},
        }
        k = k + 1;
    }
    false
}

/// Parses a Vulkan device UUID written as 32 hexadecimal characters;
/// whitespace and '-' anywhere in the text are ignored.
pub fn parse_uuid_hex(s: &str) -> (r: Result<[u8; 16], UuidError>)
    requires
        !(uuid_outcome(s@) is Panics),
    ensures
        match r {
            Ok(bytes) => uuid_outcome(s@) == UuidOutcome::Value(bytes@),
            Err(UuidError::WrongLength(n)) => uuid_outcome(s@) == UuidOutcome::WrongLength(n as nat),
            Err(UuidError::InvalidHex) => uuid_outcome(s@) == UuidOutcome::InvalidHex,
        },
{
    let bytes = uuid_bytes(s);
    let ghost b = bytes@;
    if bytes.len() != 32 {
        return Err(UuidError::WrongLength(bytes.len()));
    }
    let mut out = [0u8; 16];
    let mut k: usize = 0;
    assert(out@.take(0) =~= Seq::<u8>::empty());
    while k < 16
        invariant
            k <= 16,
            bytes@ == b,
            b.len() == 32,
            b == encode_utf8(uuid_chars(s@)),
            out@.len() == 16,
            pairs_from(b, 0) == prepend_value(out@.take(k as int), pairs_from(b, k as nat)),
            !(pairs_from(b, 0) is Panics),
        decreases 16 - k,
    {
        proof {
            if !(on_boundary(b, 2 * k as int) && on_boundary(b, 2 * k + 2)) {
                assert(pairs_from(b, k as nat) is Panics);
            }
        }
        match parse_pair(bytes[2 * k], bytes[2 * k + 1]) {
            None => {
                assert(pairs_from(b, k as nat) == UuidOutcome::InvalidHex);
                return Err(UuidError::InvalidHex);
            },
            Some(v) => {
                let ghost prev = out@;
                out[k] = v;
                proof {
                    assert(out@.take(k + 1) =~= prev.take(k as int).push(v));
                    match pairs_from(b, (k + 1) as nat) {
                        UuidOutcome::Value(rest) => {
                            assert(prev.take(k as int) + (seq![v] + rest) =~= prev.take(k as int).push(v) + rest);
                        },
                        _ => {},
                    }
                }
            },
        }
        k = k + 1;
    }
    assert(out@.take(16) =~= out@);
    assert(out@ + Seq::<u8>::empty() =~= out@);
    Ok(out)
}


/// The lower-case hexadecimal text of a byte sequence, two digits a byte,
/// high nibble first.
pub open spec fn hex_text(bytes: Seq<u8>) -> Seq<char>
    decreases bytes.len(),
{
    if bytes.len() == 0 {
        Seq::empty()
    } else {
        hex_text(bytes.drop_last()) + seq![
            digit_char((bytes.last() / 16) as nat),
            digit_char((bytes.last() % 16) as nat),
        ]
    }
}

/// Writes a device UUID as 32 lower-case hexadecimal characters.
pub fn format_uuid_hex(b: &[u8; 16]) -> (s: String)
    ensures
        s@ == hex_text(b@),
{
    let mut s = String::new();
    let mut i: usize = 0;
    assert(b@.take(0) =~= Seq::<u8>::empty());
    while i < 16
        invariant
            i <= 16,
            b@.len() == 16,
            s@ == hex_text(b@.take(i as int)),
        decreases 16 - i,
    {
        let byte = b[i];
        s.append(digit_str(byte / 16));
        s.append(digit_str(byte % 16));
        proof {
            let t = b@.take(i + 1);
            assert(t.drop_last() =~= b@.take(i as int));
            assert(t.last() == byte);
            assert(s@ =~= hex_text(t));
        }
        i = i + 1;
    }
    assert(b@.take(16) =~= b@);
    s
}

/// A hexadecimal digit character is ASCII, is neither whitespace nor '-'
/// nor '+', and its byte reads back as its value.
pub proof fn lemma_hex_digit_char(d: nat)
    requires
        d < 16,
    ensures
        '\0' <= digit_char(d) <= '\u{7f}',
        !is_whitespace(digit_char(d)),
        digit_char(d) != '-',
        (digit_char(d) as u8) != 0x2b,
        hex_value(digit_char(d) as u8) == Some(d),
        d < 10 ==> '0' <= digit_char(d) <= '9',
        d >= 10 ==> 'a' <= digit_char(d) <= 'f',
{
    let h = hex_digit_chars();
    if d == 0 { assert(h[0] == '0'); }
    else if d == 1 { assert(h[1] == '1'); }
    else if d == 2 { assert(h[2] == '2'); }
    else if d == 3 { assert(h[3] == '3'); }
    else if d == 4 { assert(h[4] == '4'); }
    else if d == 5 { assert(h[5] == '5'); }
    else if d == 6 { assert(h[6] == '6'); }
    else if d == 7 { assert(h[7] == '7'); }
    else if d == 8 { assert(h[8] == '8'); }
    else if d == 9 { assert(h[9] == '9'); }
    else if d == 10 { assert(h[10] == 'a'); }
    else if d == 11 { assert(h[11] == 'b'); }
    else if d == 12 { assert(h[12] == 'c'); }
    else if d == 13 { assert(h[13] == 'd'); }
    else if d == 14 { assert(h[14] == 'e'); }
    else { assert(h[15] == 'f'); }
}

/// The characters of a hexadecimal text, position by position.
pub proof fn lemma_hex_text_chars(bytes: Seq<u8>)
    ensures
        hex_text(bytes).len() == 2 * bytes.len(),
        forall|i: int| 0 <= i < bytes.len() ==> hex_text(bytes)[2 * i] == digit_char((#[trigger] bytes[i] / 16) as nat),
        forall|i: int| 0 <= i < bytes.len() ==> hex_text(bytes)[2 * i + 1] == digit_char((#[trigger] bytes[i] % 16) as nat),
    decreases bytes.len(),
{
    if bytes.len() > 0 {
        let front = bytes.drop_last();
        lemma_hex_text_chars(front);
        assert forall|i: int| 0 <= i < bytes.len() implies hex_text(bytes)[2 * i] == digit_char((#[trigger] bytes[i] / 16) as nat) by {
            if i < front.len() {
                assert(front[i] == bytes[i]);
            }
        }
        assert forall|i: int| 0 <= i < bytes.len() implies hex_text(bytes)[2 * i + 1] == digit_char((#[trigger] bytes[i] % 16) as nat) by {
            if i < front.len() {
                assert(front[i] == bytes[i]);
            }
        }
    }
}

/// The hexadecimal text of bytes is written in lower case: each of its
/// characters is '0' to '9' or 'a' to 'f'.
pub proof fn lemma_hex_text_lower_case(bytes: Seq<u8>)
    ensures
        forall|i: int| 0 <= i < hex_text(bytes).len() ==> {
            let c = #[trigger] hex_text(bytes)[i];
            ('0' <= c && c <= '9') || ('a' <= c && c <= 'f')
        },
{
    let t = hex_text(bytes);
    lemma_hex_text_chars(bytes);
    assert forall|i: int| 0 <= i < t.len() implies ('0' <= #[trigger] t[i] && t[i] <= '9') || ('a' <= t[i] && t[i] <= 'f') by {
        let j = i / 2;
        assert(0 <= j < bytes.len());
        if i % 2 == 0 {
            assert(i == 2 * j);
            lemma_hex_digit_char((bytes[j] / 16) as nat);
        } else {
            assert(i == 2 * j + 1);
            lemma_hex_digit_char((bytes[j] % 16) as nat);
        }
    }
}

/// Text without whitespace or '-' is kept whole.
pub proof fn lemma_uuid_chars_identity(t: Seq<char>)
    requires
        forall|i: int| 0 <= i < t.len() ==> !is_whitespace(#[trigger] t[i]) && t[i] != '-',
    ensures
        uuid_chars(t) == t,
    decreases t.len(),
{
    if t.len() > 0 {
        lemma_uuid_chars_identity(t.drop_last());
        assert(t.drop_last().push(t.last()) =~= t);
    }
}

/// Reading pairs from `i` on in the bytes of a hexadecimal text gives the
/// bytes from `i` on.
proof fn lemma_pairs_of_hex(bytes: Seq<u8>, b: Seq<u8>, i: nat)
    requires
        bytes.len() == 16,
        i <= 16,
        b.len() == 32,
        forall|k: int| 0 <= k < 32 ==> (#[trigger] b[k]) < 0x80,
        forall|k: int| 0 <= k < 16 ==> pair_value(b[2 * k], b[2 * k + 1]) == Some(#[trigger] bytes[k]),
    ensures
        pairs_from(b, i) == UuidOutcome::Value(bytes.subrange(i as int, 16)),
    decreases 16 - i,
{
    if i < 16 {
        lemma_pairs_of_hex(bytes, b, i + 1);
        assert(bytes.subrange(i as int, 16) =~= seq![bytes[i as int]] + bytes.subrange(i as int + 1, 16));
        assert(pair_value(b[2 * i as int], b[2 * i as int + 1]) == Some(bytes[i as int]));
    } else {
        assert(bytes.subrange(16, 16) =~= Seq::<u8>::empty());
    }
}

/// A text of 32 ASCII characters, none of them whitespace or '-', whose
/// character pairs read as the sixteen `bytes` reads as those bytes.
proof fn lemma_uuid_of_pairs(bytes: Seq<u8>, t: Seq<char>)
    requires
        bytes.len() == 16,
        t.len() == 32,
        forall|i: int| 0 <= i < t.len() ==> !is_whitespace(#[trigger] t[i]) && t[i] != '-' && '\0' <= t[i] <= '\u{7f}',
        forall|k: int| 0 <= k < 16 ==> pair_value(t[2 * k] as u8, t[2 * k + 1] as u8) == Some(#[trigger] bytes[k]),
    ensures
        uuid_outcome(t) == UuidOutcome::Value(bytes),
{
    lemma_uuid_chars_identity(t);
    assert(vstd::utf8::is_ascii_chars(t));
    vstd::utf8::is_ascii_chars_encode_utf8(t);
    let b = encode_utf8(t);
    assert forall|k: int| 0 <= k < 32 implies (#[trigger] b[k]) < 0x80 by {
        assert(t[k] as u8 == b[k]);
    }
    assert forall|k: int| 0 <= k < 16 implies pair_value(b[2 * k], b[2 * k + 1]) == Some(#[trigger] bytes[k]) by {
        assert(t[2 * k] as u8 == b[2 * k]);
        assert(t[2 * k + 1] as u8 == b[2 * k + 1]);
    }
    lemma_pairs_of_hex(bytes, b, 0);
    assert(bytes.subrange(0, 16) =~= bytes);
}

/// Reading back the text that `format_uuid_hex` writes gives the same
/// sixteen bytes.
pub proof fn lemma_uuid_hex_roundtrip(bytes: Seq<u8>)
    requires
        bytes.len() == 16,
    ensures
        uuid_outcome(hex_text(bytes)) == UuidOutcome::Value(bytes),
{
    let t = hex_text(bytes);
    lemma_hex_text_chars(bytes);
    assert forall|i: int| 0 <= i < t.len() implies !is_whitespace(#[trigger] t[i]) && t[i] != '-' && '\0' <= t[i] <= '\u{7f}' by {
        let j = i / 2;
        assert(0 <= j < 16);
        if i % 2 == 0 {
            assert(i == 2 * j);
            lemma_hex_digit_char((bytes[j] / 16) as nat);
        } else {
            assert(i == 2 * j + 1);
            lemma_hex_digit_char((bytes[j] % 16) as nat);
        }
    }
    assert forall|k: int| 0 <= k < 16 implies pair_value(t[2 * k] as u8, t[2 * k + 1] as u8) == Some(#[trigger] bytes[k]) by {
        let hi = (bytes[k] / 16) as nat;
        let lo = (bytes[k] % 16) as nat;
        lemma_hex_digit_char(hi);
        lemma_hex_digit_char(lo);
        assert(hi * 16 + lo == bytes[k]);
    }
    lemma_uuid_of_pairs(bytes, t);
}

/// The ASCII upper-case form of a character: 'a' to 'z' become 'A' to 'Z',
/// every other character stays.
pub open spec fn ascii_upper(c: char) -> char {
    if 'a' <= c && c <= 'z' {
        ((c as u32) - 32) as char
    } else {
        c
    }
}

/// The ASCII upper-case form of a text.
pub open spec fn upper_text(s: Seq<char>) -> Seq<char> {
    s.map_values(|c: char| ascii_upper(c))
}

/// Each hexadecimal digit reads at its value in either case: '0' to '9',
/// 'a' to 'f' and 'A' to 'F'. The upper-case digit is ASCII and is neither
/// whitespace nor '-' nor '+'.
pub proof fn lemma_hex_digit_either_case(d: nat)
    requires
        d < 16,
    ensures
        hex_value(digit_char(d) as u8) == Some(d),
        hex_value(ascii_upper(digit_char(d)) as u8) == Some(d),
        '\0' <= ascii_upper(digit_char(d)) <= '\u{7f}',
        !is_whitespace(ascii_upper(digit_char(d))),
        ascii_upper(digit_char(d)) != '-',
        (ascii_upper(digit_char(d)) as u8) != 0x2b,
{
    lemma_hex_digit_char(d);
    let h = hex_digit_chars();
    if d == 10 { assert(h[10] == 'a'); assert(ascii_upper('a') == 'A'); }
    else if d == 11 { assert(h[11] == 'b'); assert(ascii_upper('b') == 'B'); }
    else if d == 12 { assert(h[12] == 'c'); assert(ascii_upper('c') == 'C'); }
    else if d == 13 { assert(h[13] == 'd'); assert(ascii_upper('d') == 'D'); }
    else if d == 14 { assert(h[14] == 'e'); assert(ascii_upper('e') == 'E'); }
    else if d == 15 { assert(h[15] == 'f'); assert(ascii_upper('f') == 'F'); }
}

/// Case does not matter: the upper-case form of the text that
/// `format_uuid_hex` writes reads as the same sixteen bytes.
pub proof fn lemma_uuid_hex_upper_roundtrip(bytes: Seq<u8>)
    requires
        bytes.len() == 16,
    ensures
        uuid_outcome(upper_text(hex_text(bytes))) == UuidOutcome::Value(bytes),
{
    lemma_uuid_case_blind(hex_text(bytes));
    lemma_uuid_hex_roundtrip(bytes);
}

/// The ASCII upper-case form of a byte of UTF-8 text: the bytes of 'a' to
/// 'z' become those of 'A' to 'Z', every other byte stays.
pub open spec fn upper_byte(b: u8) -> u8 {
    if 0x61 <= b && b <= 0x7a {
        (b - 0x20) as u8
    } else {
        b
    }
}

/// Upper-casing a character keeps it whitespace or not, '-' or not.
proof fn lemma_ascii_upper_class(c: char)
    ensures
        is_whitespace(ascii_upper(c)) == is_whitespace(c),
        (ascii_upper(c) == '-') == (c == '-'),
        'a' <= c && c <= 'z' ==> ascii_upper(c) as u32 == (c as u32) - 32,
        !('a' <= c && c <= 'z') ==> ascii_upper(c) == c,
{
}

/// The characters that count in the upper-case form of a text are the
/// upper-case forms of those that count in the text.
proof fn lemma_uuid_chars_upper(s: Seq<char>)
    ensures
        uuid_chars(upper_text(s)) == upper_text(uuid_chars(s)),
    decreases s.len(),
{
    if s.len() > 0 {
        lemma_uuid_chars_upper(s.drop_last());
        assert(upper_text(s).drop_last() =~= upper_text(s.drop_last()));
        assert(upper_text(s).last() == ascii_upper(s.last()));
        lemma_ascii_upper_class(s.last());
        if !is_whitespace(s.last()) && s.last() != '-' {
            assert(upper_text(uuid_chars(s.drop_last()).push(s.last()))
                =~= upper_text(uuid_chars(s.drop_last())).push(ascii_upper(s.last())));
        }
    }
}

/// The UTF-8 encoding of a character's upper-case form is the encoding of
/// the character with each byte upper-cased: only the one-byte encodings of
/// 'a' to 'z' change, and the bytes of a multi-byte character are never
/// ASCII.
proof fn lemma_encode_scalar_upper(c: char)
    ensures
        encode_scalar(ascii_upper(c) as u32) == encode_scalar(c as u32).map_values(|b: u8| upper_byte(b)),
{
    let v = c as u32;
    lemma_ascii_upper_class(c);
    vstd::utf8::char_is_scalar(c);
    let e = encode_scalar(v);
    if 'a' <= c && c <= 'z' {
        let u = (v - 32) as u32;
        assert(ascii_upper(c) as u32 == u);
        assert(0x61 <= v <= 0x7a);
        assert((v & 0x7f) as u8 == v && (u & 0x7f) as u8 == u) by (bit_vector)
            requires
                0x61 <= v <= 0x7a,
                u == v - 32,
        ;
        assert(encode_scalar(u) =~= e.map_values(|b: u8| upper_byte(b)));
    } else if v <= 0x7f {
        assert((v & 0x7f) as u8 == v) by (bit_vector)
            requires
                v <= 0x7f,
        ;
        assert(!(0x61 <= v <= 0x7a));
        assert(e =~= e.map_values(|b: u8| upper_byte(b)));
    } else {
        assert forall|k: int| 0 <= k < e.len() implies #[trigger] e[k] >= 0x80 by {
            assert((0xC0u8 | ((v >> 6) & 0x1F) as u8) >= 0x80) by (bit_vector);
            assert((0xE0u8 | ((v >> 12) & 0x0F) as u8) >= 0x80) by (bit_vector);
            assert((0xF0u8 | ((v >> 18) & 0x7) as u8) >= 0x80) by (bit_vector);
            assert((0x80u8 | (v & 0x3F) as u8) >= 0x80) by (bit_vector);
            assert((0x80u8 | ((v >> 6) & 0x3F) as u8) >= 0x80) by (bit_vector);
            assert((0x80u8 | ((v >> 12) & 0x3F) as u8) >= 0x80) by (bit_vector);
        }
        assert(e =~= e.map_values(|b: u8| upper_byte(b)));
    }
}

/// The UTF-8 encoding of the upper-case form of a text is the encoding of
/// the text with each byte upper-cased.
proof fn lemma_encode_utf8_upper(t: Seq<char>)
    ensures
        encode_utf8(upper_text(t)) == encode_utf8(t).map_values(|b: u8| upper_byte(b)),
    decreases t.len(),
{
    if t.len() > 0 {
        lemma_encode_utf8_upper(t.drop_first());
        assert(upper_text(t).drop_first() =~= upper_text(t.drop_first()));
        assert(upper_text(t)[0] == ascii_upper(t[0]));
        lemma_encode_scalar_upper(t[0]);
        let e0 = encode_scalar(t[0] as u32);
        let rest = encode_utf8(t.drop_first());
        assert((e0 + rest).map_values(|b: u8| upper_byte(b))
            =~= e0.map_values(|b: u8| upper_byte(b)) + rest.map_values(|b: u8| upper_byte(b)));
    } else {
        assert(upper_text(t) =~= t);
        assert(encode_utf8(t).map_values(|b: u8| upper_byte(b)) =~= encode_utf8(t));
    }
}

/// Reading byte pairs is blind to case: upper-casing every byte changes no
/// character boundary and no pair's value.
proof fn lemma_pairs_from_upper(b: Seq<u8>, i: nat)
    ensures
        pairs_from(b.map_values(|x: u8| upper_byte(x)), i) == pairs_from(b, i),
    decreases 16 - i,
{
    let u = b.map_values(|x: u8| upper_byte(x));
    if i < 16 {
        lemma_pairs_from_upper(b, i + 1);
        let k = 2 * i as int;
        assert(on_boundary(u, k) == on_boundary(b, k));
        assert(on_boundary(u, k + 2) == on_boundary(b, k + 2));
        if on_boundary(b, k) && on_boundary(b, k + 2) {
            assert(u[k] == upper_byte(b[k]));
            assert(u[k + 1] == upper_byte(b[k + 1]));
            assert(hex_value(u[k]) == hex_value(b[k]));
            assert(hex_value(u[k + 1]) == hex_value(b[k + 1]));
            assert(pair_value(u[k], u[k + 1]) == pair_value(b[k], b[k + 1]));
        }
    }
}

/// Case does not matter when reading a UUID text: any text and its ASCII
/// upper-case form read alike, as the same bytes, the same wrong length,
/// the same invalid pair or the same cut character.
pub proof fn lemma_uuid_case_blind(s: Seq<char>)
    ensures
        uuid_outcome(upper_text(s)) == uuid_outcome(s),
{
    lemma_uuid_chars_upper(s);
    lemma_encode_utf8_upper(uuid_chars(s));
    lemma_pairs_from_upper(encode_utf8(uuid_chars(s)), 0);
}

/// Dropping a separator keeps the characters that count.
proof fn lemma_uuid_chars_skip(a: Seq<char>, c: char, b: Seq<char>)
    requires
        is_whitespace(c) || c == '-',
    ensures
        uuid_chars(a + seq![c] + b) == uuid_chars(a + b),
    decreases b.len(),
{
    if b.len() == 0 {
        assert(a + seq![c] + b =~= a.push(c));
        assert(a.push(c).drop_last() =~= a);
        assert(a + b =~= a);
    } else {
        lemma_uuid_chars_skip(a, c, b.drop_last());
        assert((a + seq![c] + b).drop_last() =~= a + seq![c] + b.drop_last());
        assert((a + b).drop_last() =~= a + b.drop_last());
    }
}

/// Whitespace and '-' anywhere in a UUID text make no difference: reading
/// the text with one such separator inserted gives what reading it without
/// gives.
pub proof fn lemma_uuid_separator_ignored(a: Seq<char>, c: char, b: Seq<char>)
    requires
        is_whitespace(c) || c == '-',
    ensures
        uuid_outcome(a + seq![c] + b) == uuid_outcome(a + b),
{
    lemma_uuid_chars_skip(a, c, b);
}

} // verus!
