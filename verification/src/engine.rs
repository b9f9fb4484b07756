//! SNMPv3 engine-ID handling per RFC 3411 §5.
//!
//! The first four octets carry IANA Private Enterprise Number 61509
//! (assigned to no42.org), with the high bit of octet 0 set per the RFC.
//! Octet 4 is a format selector; octets 5..N are format-specific.
//!
//! Default-resolution cascade:
//!     1. `-E ENGINE-ID` user override → use verbatim.
//!     2. `--src-addr X` → RFC 3411 format 1 (IPv4), payload = X big-endian.
//!     3. host primary-interface MAC → format 3 (MAC).
//!     4. fallback → format 4 (text), payload = hostname truncated to fit.

use vstd::prelude::*;
use vstd::string::*;
use vstd::utf8::encode_utf8;
use crate::ber::push_all;
use crate::lex::{
    char_hex_value, char_is_ascii_ws, char_is_hex_digit, chars_of, hex_digit_char, hex_value,
    is_ascii_ws, is_hex_digit, is_ws, range_eq_str, trim, trim_bounds, trim_end, trim_start,
};
use crate::net::Ipv4Addr;
use crate::split::{split_char, split_ranges, Separator};
use crate::text::{dec, push_char, push_dec, text};

verus! {

/// IANA Private Enterprise Number 61509, assigned to no42.org.
pub const PEN_NO42_ORG: u32 = 61509;

pub const FORMAT_IPV4: u8 = 1;
pub const FORMAT_MAC: u8 = 3;
pub const FORMAT_TEXT: u8 = 4;
pub const FORMAT_OCTETS: u8 = 5;

/// RFC 3411 §5: an engine-ID is between 5 and 32 octets; octets 5..N are at
/// most 27.
pub const MIN_ENGINE_ID: usize = 5;
pub const MAX_ENGINE_ID: usize = 32;
pub const MAX_PAYLOAD: usize = 27;

#[derive(Debug, Clone, PartialEq, Eq)]
pub struct EngineId(Vec<u8>);

impl View for EngineId {
    type V = Seq<u8>;

    closed spec fn view(&self) -> Seq<u8> {
        self.0@
    }
}

/// `80 00 F0 45`: PEN 61509 (`0x0000F045`) with the high bit of octet 0 set.
pub open spec fn pen_prefix() -> Seq<u8> {
    seq![0x80u8, 0x00u8, 0xF0u8, 0x45u8]
}

/// An engine-ID of the given RFC 3411 format under our PEN.
pub open spec fn pen_engine_id(format: u8, payload: Seq<u8>) -> Seq<u8> {
    pen_prefix().push(format) + payload
}

pub open spec fn min(a: int, b: int) -> int {
    if a <= b { a } else { b }
}

#[derive(Debug, Clone, Copy, PartialEq, Eq, Structural)]
pub enum EngineIdParseError {
    Empty,
    TooShort { got: usize, min: usize },
    OddLength { got: usize },
    BadHex { ch: char },
    TooLong { got: usize, max: usize },
}

impl EngineIdParseError {
    /// The message for the error.
    pub open spec fn spec_text(self) -> Seq<char> {
        match self {
            EngineIdParseError::Empty => "engine-ID is empty"@,
            EngineIdParseError::TooShort { got, min } => "engine-ID is "@ + dec(got as nat)
                + " octets long, RFC 3411 §5 requires at least "@ + dec(min as nat),
            EngineIdParseError::OddLength { got } => "engine-ID hex string has odd length ("@ + dec(
                got as nat,
            ) + " chars)"@,
            EngineIdParseError::BadHex { ch } => "engine-ID contains non-hex character '"@ + seq![ch]
                + "'"@,
            EngineIdParseError::TooLong { got, max } => "engine-ID is "@ + dec(got as nat)
                + " octets long, max is "@ + dec(max as nat),
        }
    }

    pub fn to_string(&self) -> (r: String)
        ensures
            r@ == self.spec_text(),
    {
        match self {
            EngineIdParseError::Empty => text("engine-ID is empty"),
            EngineIdParseError::TooShort { got, min } => {
                let mut m = text("engine-ID is ");
                push_dec(&mut m, *got as u64);
                m.append(" octets long, RFC 3411 §5 requires at least ");
                push_dec(&mut m, *min as u64);
                m
            },
            EngineIdParseError::OddLength { got } => {
                let mut m = text("engine-ID hex string has odd length (");
                push_dec(&mut m, *got as u64);
                m.append(" chars)");
                m
            },
            EngineIdParseError::BadHex { ch } => {
                let mut m = text("engine-ID contains non-hex character '");
                push_char(&mut m, *ch);
                m.append("'");
                m
            },
            EngineIdParseError::TooLong { got, max } => {
                let mut m = text("engine-ID is ");
                push_dec(&mut m, *got as u64);
                m.append(" octets long, max is ");
                push_dec(&mut m, *max as u64);
                m
            },
        }
    }
}

// ---------------------------------------------------------------------
// Parsing user input
// ---------------------------------------------------------------------

/// The trimmed text without a leading `0x` / `0X`.
pub open spec fn engine_body(s: Seq<char>) -> Seq<char> {
    let t = trim(s);
    if t.len() >= 2 && t[0] == '0' && (t[1] == 'x' || t[1] == 'X') {
        t.subrange(2, t.len() as int)
    } else {
        t
    }
}

/// The text without ASCII whitespace and `:` separators.
pub open spec fn engine_clean(s: Seq<char>) -> Seq<char>
    decreases s.len(),
{
    if s.len() == 0 {
        s
    } else if is_ascii_ws(s.last()) || s.last() == ':' {
        engine_clean(s.drop_last())
    } else {
        engine_clean(s.drop_last()).push(s.last())
    }
}

pub open spec fn is_hex_byte(b: u8) -> bool {
    is_hex_digit(b as char)
}

/// Index of the first byte that is not an ASCII hex digit (the length
/// when there is none).
pub open spec fn first_non_hex_byte(b: Seq<u8>) -> nat
    decreases b.len(),
{
    if b.len() == 0 {
        0
    } else if !is_hex_byte(b[0]) {
        0
    } else {
        1 + first_non_hex_byte(b.drop_first())
    }
}

pub open spec fn hex_byte_pairs(b: Seq<u8>) -> Seq<u8> {
    Seq::new(
        b.len() / 2,
        |k: int| (16 * hex_value(b[2 * k] as char) + hex_value(b[2 * k + 1] as char)) as u8,
    )
}

/// The octets a user-supplied engine-ID text denotes: hex digits, with or
/// without a `0x` prefix, `:` and ASCII-whitespace separators ignored;
/// 5 to 32 octets. Lengths count the UTF-8 bytes of the cleaned text.
pub open spec fn spec_parse_engine_id(s: Seq<char>) -> Result<Seq<u8>, EngineIdParseError> {
    let b = encode_utf8(engine_clean(engine_body(s)));
    if b.len() == 0 {
        Err(EngineIdParseError::Empty)
    } else if b.len() > 2 * MAX_ENGINE_ID {
        Err(EngineIdParseError::TooLong { got: (b.len() / 2) as usize, max: MAX_ENGINE_ID })
    } else if b.len() % 2 != 0 {
        Err(EngineIdParseError::OddLength { got: b.len() as usize })
    } else if first_non_hex_byte(b) < b.len() {
        Err(EngineIdParseError::BadHex { ch: b[first_non_hex_byte(b) as int] as char })
    } else if b.len() / 2 < MIN_ENGINE_ID {
        Err(EngineIdParseError::TooShort { got: (b.len() / 2) as usize, min: MIN_ENGINE_ID })
    } else {
        Ok(hex_byte_pairs(b))
    }
}

proof fn lemma_encode_utf8_push(a: Seq<char>, c: char)
    ensures
        encode_utf8(a.push(c)) == encode_utf8(a) + encode_utf8(seq![c]),
    decreases a.len(),
{
    if a.len() == 0 {
        assert(a.push(c) =~= seq![c]);
        assert(encode_utf8(a) =~= Seq::<u8>::empty());
        assert(encode_utf8(a) + encode_utf8(seq![c]) =~= encode_utf8(seq![c]));
    } else {
        assert(a.push(c).drop_first() =~= a.drop_first().push(c));
        lemma_encode_utf8_push(a.drop_first(), c);
        assert(encode_utf8(a.push(c)) =~= encode_utf8(a) + encode_utf8(seq![c]));
    }
}

proof fn lemma_encode_utf8_empty(a: Seq<char>)
    ensures
        (encode_utf8(a).len() == 0) == (a.len() == 0),
    decreases a.len(),
{
    if a.len() > 0 {
        vstd::utf8::char_is_scalar(a[0]);
        assert(encode_utf8(a) == vstd::utf8::encode_scalar(a[0] as u32) + encode_utf8(
            a.drop_first(),
        ));
        assert(vstd::utf8::encode_scalar(a[0] as u32).len() >= 1);
    }
}

proof fn lemma_first_non_hex_byte(b: Seq<u8>)
    ensures
        first_non_hex_byte(b) <= b.len(),
        forall|i: int| 0 <= i < first_non_hex_byte(b) ==> is_hex_byte(b[i]),
        first_non_hex_byte(b) < b.len() ==> !is_hex_byte(b[first_non_hex_byte(b) as int]),
    decreases b.len(),
{
    if b.len() > 0 && is_hex_byte(b[0]) {
        lemma_first_non_hex_byte(b.drop_first());
        assert forall|i: int| 0 <= i < first_non_hex_byte(b) implies is_hex_byte(b[i]) by {
            if i > 0 {
                assert(b[i] == b.drop_first()[i - 1]);
            }
        }
    }
}

/// Decodes one ASCII hex digit.
pub fn decode_hex_nibble(b: u8) -> (r: Result<u8, EngineIdParseError>)
    ensures
        r matches Ok(v) ==> is_hex_byte(b) && v as nat == hex_value(b as char),
        r matches Err(e) ==> !is_hex_byte(b) && e == (EngineIdParseError::BadHex { ch: b as char }),
{
    if b >= 0x30 && b <= 0x39 {
        Ok(b - 0x30)
    } else if b >= 0x61 && b <= 0x66 {
        Ok(b - 0x61 + 10)
    } else if b >= 0x41 && b <= 0x46 {
        Ok(b - 0x41 + 10)
    } else {
        Err(EngineIdParseError::BadHex { ch: b as char })
    }
}

/// The lower-case hex rendering of `b`, two digits per octet.
pub open spec fn hex_text(b: Seq<u8>) -> Seq<char> {
    Seq::new(
        2 * b.len(),
        |i: int|
            if i % 2 == 0 {
                hex_digit_char(b[i / 2] as nat / 16)
            } else {
                hex_digit_char(b[i / 2] as nat % 16)
            },
    )
}

proof fn lemma_hex_digit_char(d: nat)
    requires
        d < 16,
    ensures
        is_hex_digit(hex_digit_char(d)),
        hex_value(hex_digit_char(d)) == d,
        !is_ws(hex_digit_char(d)),
        !is_ascii_ws(hex_digit_char(d)),
        hex_digit_char(d) != ':',
        hex_digit_char(d) != 'x',
        hex_digit_char(d) != 'X',
        '\0' <= hex_digit_char(d) <= '\u{7f}',
        (hex_digit_char(d) as u8) as char == hex_digit_char(d),
{
}

proof fn lemma_engine_clean_id(s: Seq<char>)
    requires
        forall|i: int| 0 <= i < s.len() ==> !is_ascii_ws(#[trigger] s[i]) && s[i] != ':',
    ensures
        engine_clean(s) == s,
    decreases s.len(),
{
    if s.len() > 0 {
        lemma_engine_clean_id(s.drop_last());
        assert(s.drop_last().push(s.last()) =~= s);
    }
}

proof fn lemma_all_hex(b: Seq<u8>)
    requires
        forall|i: int| 0 <= i < b.len() ==> is_hex_byte(#[trigger] b[i]),
    ensures
        first_non_hex_byte(b) == b.len(),
    decreases b.len(),
{
    if b.len() > 0 {
        assert forall|i: int| 0 <= i < b.drop_first().len() implies is_hex_byte(
            #[trigger] b.drop_first()[i],
        ) by {
            assert(b.drop_first()[i] == b[i + 1]);
        }
        lemma_all_hex(b.drop_first());
        assert(is_hex_byte(b[0]));
    }
}

/// An engine-ID written as lower-case hex (as Net-SNMP prints one) is read
/// back as the same octets, for every length RFC 3411 allows.
pub proof fn lemma_engine_id_hex_round_trip(b: Seq<u8>)
    requires
        MIN_ENGINE_ID <= b.len() <= MAX_ENGINE_ID,
    ensures
        spec_parse_engine_id(hex_text(b)) == Ok::<Seq<u8>, EngineIdParseError>(b),
{
    let s = hex_text(b);
    assert forall|i: int| 0 <= i < s.len() implies {
        &&& is_hex_digit(#[trigger] s[i])
        &&& !is_ws(s[i])
        &&& !is_ascii_ws(s[i])
        &&& s[i] != ':'
        &&& s[i] != 'x'
        &&& s[i] != 'X'
        &&& '\0' <= s[i] <= '\u{7f}'
        &&& (s[i] as u8) as char == s[i]
    } by {
        if i % 2 == 0 {
            lemma_hex_digit_char(b[i / 2] as nat / 16);
        } else {
            lemma_hex_digit_char(b[i / 2] as nat % 16);
        }
    }
    assert(trim_start(s) == s);
    assert(trim_end(s) == s);
    assert(trim(s) == s);
    assert(engine_body(s) == s);
    lemma_engine_clean_id(s);
    assert(vstd::utf8::is_ascii_chars(s));
    vstd::utf8::is_ascii_chars_encode_utf8(s);
    let e = encode_utf8(s);
    assert(e.len() == s.len());
    assert forall|i: int| 0 <= i < e.len() implies is_hex_byte(#[trigger] e[i]) by {
        assert(s[i] as u8 == e[i]);
    }
    lemma_all_hex(e);
    assert(hex_byte_pairs(e) =~= b) by {
        assert forall|k: int| 0 <= k < b.len() implies #[trigger] hex_byte_pairs(e)[k] == b[k] by {
            let hi = b[k] as nat / 16;
            let lo = b[k] as nat % 16;
            assert(s[2 * k] == hex_digit_char(hi));
            assert(s[2 * k + 1] == hex_digit_char(lo));
            lemma_hex_digit_char(hi);
            lemma_hex_digit_char(lo);
            assert(e[2 * k] as char == s[2 * k]);
            assert(e[2 * k + 1] as char == s[2 * k + 1]);
            assert(16 * hi + lo == b[k]);
        }
    }
}

impl EngineId {
    /// Parses a user-supplied engine-ID: hex digits with or without a
    /// `0x`/`0X` prefix, `:` or ASCII-whitespace separators. Stored verbatim
    /// (no PEN prefix is applied — the user is in charge).
    pub fn parse_user_input(s: &str) -> (r: Result<EngineId, EngineIdParseError>)
        ensures
            r matches Ok(e) ==> spec_parse_engine_id(s@) == Ok::<Seq<u8>, EngineIdParseError>(e@),
            r matches Err(x) ==> spec_parse_engine_id(s@) == Err::<Seq<u8>, EngineIdParseError>(x),
    {
        let cs = chars_of(s);
        let (tf, tt) = trim_bounds(cs.as_slice());
        let ghost t = cs@.subrange(tf as int, tt as int);
        let mut from = tf;
        if tt - tf >= 2 && cs[tf] == '0' && (cs[tf + 1] == 'x' || cs[tf + 1] == 'X') {
            from = tf + 2;
            assert(t.subrange(2, t.len() as int) =~= cs@.subrange(from as int, tt as int));
        } else {
            assert(t =~= cs@.subrange(from as int, tt as int));
        }
        // UTF-8 bytes of the characters that are not separators.
        let mut cleaned: Vec<u8> = Vec::new();
        let mut i: usize = from;
        assert(cs@.subrange(from as int, from as int) =~= Seq::<char>::empty());
        while i < tt
            invariant
                from <= i <= tt <= cs@.len(),
                cs@ == s@,
                cleaned@ == encode_utf8(engine_clean(cs@.subrange(from as int, i as int))),
            decreases tt - i,
        {
            let c = cs[i];
            let ghost pre = cs@.subrange(from as int, i as int);
            assert(cs@.subrange(from as int, i + 1).drop_last() =~= pre);
            assert(cs@.subrange(from as int, i + 1).last() == c);
            if !(char_is_ascii_ws(c) || c == ':') {
                let piece = s.substring_char(i, i + 1);
                assert(piece@ =~= seq![c]);
                push_all(&mut cleaned, piece.as_bytes());
                proof {
                    lemma_encode_utf8_push(engine_clean(pre), c);
                }
            }
            i = i + 1;
        }
        assert(engine_body(s@) == cs@.subrange(from as int, tt as int));
        let ghost b = cleaned@;
        assert(b == encode_utf8(engine_clean(engine_body(s@))));
        let n = cleaned.len();
        if n == 0 {
            return Err(EngineIdParseError::Empty);
        }
        if n > MAX_ENGINE_ID * 2 {
            return Err(EngineIdParseError::TooLong { got: n / 2, max: MAX_ENGINE_ID });
        }
        if n % 2 != 0 {
            return Err(EngineIdParseError::OddLength { got: n });
        }
        proof {
            lemma_first_non_hex_byte(b);
        }
        let mut bytes: Vec<u8> = Vec::new();
        let mut k: usize = 0;
        while k < n / 2
            invariant
                0 <= k <= n / 2,
                n == b.len(),
                n % 2 == 0,
                b == cleaned@,
                b == encode_utf8(engine_clean(engine_body(s@))),
                0 < n <= 2 * MAX_ENGINE_ID,
                forall|j: int| 0 <= j < 2 * k ==> is_hex_byte(b[j]),
                bytes@ == hex_byte_pairs(b).subrange(0, k as int),
                first_non_hex_byte(b) <= b.len(),
                forall|j: int| 0 <= j < first_non_hex_byte(b) ==> is_hex_byte(b[j]),
                first_non_hex_byte(b) < b.len() ==> !is_hex_byte(b[first_non_hex_byte(b) as int]),
            decreases n / 2 - k,
        {
            let hi = match decode_hex_nibble(cleaned[2 * k]) {
                Ok(v) => v,
                Err(e) => {
                    assert(first_non_hex_byte(b) == 2 * k);
                    return Err(e);
                },
            };
            let lo = match decode_hex_nibble(cleaned[2 * k + 1]) {
                Ok(v) => v,
                Err(e) => {
                    assert(first_non_hex_byte(b) == 2 * k + 1);
                    return Err(e);
                },
            };
            bytes.push(hi * 16 + lo);
            k = k + 1;
            assert(bytes@ =~= hex_byte_pairs(b).subrange(0, k as int));
        }
        assert(first_non_hex_byte(b) == b.len());
        assert(hex_byte_pairs(b).subrange(0, k as int) =~= hex_byte_pairs(b));
        if bytes.len() < MIN_ENGINE_ID {
            return Err(EngineIdParseError::TooShort { got: bytes.len(), min: MIN_ENGINE_ID });
        }
        Ok(EngineId(bytes))
    }
}

impl EngineId {
    /// Appends the four-octet PEN prefix with the high bit set on octet 0.
    /// For PEN 61509 (`0x0000F045`) this is `80 00 F0 45`.
    pub fn push_pen_prefix(buf: &mut Vec<u8>)
        ensures
            final(buf)@ == old(buf)@ + pen_prefix(),
    {
        let pen = PEN_NO42_ORG;
        assert(((61509u32 >> 24u32) as u8 | 0x80u8) == 0x80u8) by (bit_vector);
        assert(((61509u32 >> 16u32) & 0xFFu32) as u8 == 0x00u8) by (bit_vector);
        assert(((61509u32 >> 8u32) & 0xFFu32) as u8 == 0xF0u8) by (bit_vector);
        assert((61509u32 & 0xFFu32) as u8 == 0x45u8) by (bit_vector);
        buf.push(((pen >> 24) as u8) | 0x80);
        buf.push(((pen >> 16) & 0xFF) as u8);
        buf.push(((pen >> 8) & 0xFF) as u8);
        buf.push((pen & 0xFF) as u8);
        assert(final(buf)@ =~= old(buf)@ + pen_prefix());
    }

    fn with_payload(format: u8, payload: &[u8]) -> (r: EngineId)
        ensures
            r@ == pen_engine_id(format, payload@),
    {
        let mut buf: Vec<u8> = Vec::new();
        Self::push_pen_prefix(&mut buf);
        buf.push(format);
        push_all(&mut buf, payload);
        assert(buf@ =~= pen_engine_id(format, payload@));
        EngineId(buf)
    }

    /// RFC 3411 §5 format 1 (IPv4). 9 octets total.
    pub fn from_ipv4(addr: Ipv4Addr) -> (r: EngineId)
        ensures
            r@ == pen_engine_id(FORMAT_IPV4, addr.spec_octets()),
    {
        let o = addr.octets();
        Self::with_payload(FORMAT_IPV4, &o)
    }

    /// RFC 3411 §5 format 3 (MAC). 11 octets total.
    pub fn from_mac(mac: [u8; 6]) -> (r: EngineId)
        ensures
            r@ == pen_engine_id(FORMAT_MAC, mac@),
    {
        Self::with_payload(FORMAT_MAC, &mac)
    }

    /// RFC 3411 §5 format 4 (text). The UTF-8 payload is truncated to
    /// `MAX_PAYLOAD` octets so the engine-ID fits `MAX_ENGINE_ID`.
    pub fn from_text(text: &str) -> (r: EngineId)
        ensures
            r@ == pen_engine_id(
                FORMAT_TEXT,
                encode_utf8(text@).take(min(encode_utf8(text@).len() as int, MAX_PAYLOAD as int)),
            ),
    {
        let bytes = text.as_bytes();
        Self::from_truncated(FORMAT_TEXT, bytes)
    }

    /// RFC 3411 §5 format 5 (administratively assigned octets), truncated to
    /// `MAX_PAYLOAD` octets.
    pub fn from_octets(octets: &[u8]) -> (r: EngineId)
        ensures
            r@ == pen_engine_id(
                FORMAT_OCTETS,
                octets@.take(min(octets@.len() as int, MAX_PAYLOAD as int)),
            ),
    {
        Self::from_truncated(FORMAT_OCTETS, octets)
    }

    fn from_truncated(format: u8, bytes: &[u8]) -> (r: EngineId)
        ensures
            r@ == pen_engine_id(format, bytes@.take(min(bytes@.len() as int, MAX_PAYLOAD as int))),
    {
        let take = if bytes.len() < MAX_PAYLOAD {
            bytes.len()
        } else {
            MAX_PAYLOAD
        };
        let mut buf: Vec<u8> = Vec::new();
        Self::push_pen_prefix(&mut buf);
        buf.push(format);
        let ghost head = buf@;
        let mut i: usize = 0;
        while i < take
            invariant
                0 <= i <= take <= bytes.len(),
                buf@ == head + bytes@.subrange(0, i as int),
            decreases take - i,
        {
            buf.push(bytes[i]);
            i = i + 1;
            assert(buf@ =~= head + bytes@.subrange(0, i as int));
        }
        assert(buf@ =~= pen_engine_id(format, bytes@.take(min(bytes@.len() as int, MAX_PAYLOAD as int))));
        EngineId(buf)
    }

    /// The engine-ID octets.
    pub fn as_bytes(&self) -> (r: &[u8])
        ensures
            r@ == self@,
    {
        self.0.as_slice()
    }

    pub fn len(&self) -> (r: usize)
        ensures
            r == self@.len(),
    {
        self.0.len()
    }

    pub fn is_empty(&self) -> (r: bool)
        ensures
            r == (self@.len() == 0),
    {
        self.0.len() == 0
    }

    /// A copy of this engine-ID.
    pub fn duplicate(&self) -> (r: EngineId)
        ensures
            r@ == self@,
    {
        let mut buf: Vec<u8> = Vec::new();
        push_all(&mut buf, self.0.as_slice());
        assert(buf@ =~= self@);
        EngineId(buf)
    }
}

// ---------------------------------------------------------------------
// Host MAC selection
// ---------------------------------------------------------------------

pub open spec fn starts_with(s: Seq<char>, p: Seq<char>) -> bool {
    s.len() >= p.len() && s.subrange(0, p.len() as int) == p
}

fn str_starts_with(s: &[char], p: &str) -> (r: bool)
    ensures
        r == starts_with(s@, p@),
{
    let n = p.unicode_len();
    if n > s.len() {
        return false;
    }
    range_eq_str(s, 0, n, p)
}

/// Interface names that do not carry a stable host MAC: docker bridges,
/// bonds, tunnels, WireGuard, container CNI plugins, VM host-only networks.
pub open spec fn spec_is_virtual_interface(name: Seq<char>) -> bool {
    starts_with(name, "docker"@) || starts_with(name, "br-"@) || starts_with(name, "bond"@)
        || starts_with(name, "virbr"@) || starts_with(name, "veth"@) || starts_with(name, "tun"@)
        || starts_with(name, "tap"@) || starts_with(name, "wg"@) || starts_with(name, "cni"@)
        || starts_with(name, "kube"@) || starts_with(name, "flannel"@) || starts_with(
        name,
        "cilium"@,
    ) || starts_with(name, "ovs"@) || starts_with(name, "dummy"@) || starts_with(name, "vboxnet"@)
        || starts_with(name, "vmnet"@)
}

pub fn is_virtual_interface(name: &str) -> (r: bool)
    ensures
        r == spec_is_virtual_interface(name@),
{
    let cs = chars_of(name);
    let c = cs.as_slice();
    str_starts_with(c, "docker") || str_starts_with(c, "br-") || str_starts_with(c, "bond")
        || str_starts_with(c, "virbr") || str_starts_with(c, "veth") || str_starts_with(c, "tun")
        || str_starts_with(c, "tap") || str_starts_with(c, "wg") || str_starts_with(c, "cni")
        || str_starts_with(c, "kube") || str_starts_with(c, "flannel") || str_starts_with(
        c,
        "cilium",
    ) || str_starts_with(c, "ovs") || str_starts_with(c, "dummy") || str_starts_with(c, "vboxnet")
        || str_starts_with(c, "vmnet")
}

/// Interface names that look physical (`en*`, `eth*`, `wl*`).
pub open spec fn spec_is_physical_prefix(name: Seq<char>) -> bool {
    starts_with(name, "en"@) || starts_with(name, "eth"@) || starts_with(name, "wl"@)
}

pub fn is_physical_prefix(name: &str) -> (r: bool)
    ensures
        r == spec_is_physical_prefix(name@),
{
    let cs = chars_of(name);
    let c = cs.as_slice();
    str_starts_with(c, "en") || str_starts_with(c, "eth") || str_starts_with(c, "wl")
}

/// A colon-separated MAC address: six fields of exactly two hex digits.
pub open spec fn spec_parse_mac_text(s: Seq<char>) -> Option<Seq<u8>> {
    let parts = split_char(s, Separator::Char(':'));
    if parts.len() == 6 && (forall|k: int|
        0 <= k < 6 ==> (#[trigger] parts[k]).len() == 2 && is_hex_digit(parts[k][0])
            && is_hex_digit(parts[k][1])) {
        Some(
            Seq::new(
                6,
                |k: int| (16 * hex_value(parts[k][0]) + hex_value(parts[k][1])) as u8,
            ),
        )
    } else {
        None
    }
}

pub fn parse_mac_text(s: &str) -> (r: Option<[u8; 6]>)
    ensures
        r matches Some(m) ==> spec_parse_mac_text(s@) == Some(m@),
        r is None ==> spec_parse_mac_text(s@) is None,
{
    let cs = chars_of(s);
    assert(cs@.subrange(0, cs@.len() as int) =~= s@);
    let parts = split_ranges(cs.as_slice(), 0, cs.len(), Separator::Char(':'));
    let ghost sp = split_char(s@, Separator::Char(':'));
    if parts.len() != 6 {
        return None;
    }
    let mut out = [0u8; 6];
    let mut k: usize = 0;
    while k < 6
        invariant
            0 <= k <= 6,
            parts@.len() == 6,
            sp == split_char(s@, Separator::Char(':')),
            sp.len() == 6,
            forall|j: int|
                0 <= j < parts@.len() ==> 0 <= (#[trigger] parts@[j]).0 <= parts@[j].1 <= cs@.len()
                    && cs@.subrange(parts@[j].0 as int, parts@[j].1 as int) == sp[j],
            forall|j: int|
                0 <= j < k ==> (#[trigger] sp[j]).len() == 2 && is_hex_digit(sp[j][0])
                    && is_hex_digit(sp[j][1]),
            forall|j: int|
                0 <= j < k ==> out@[j] == (16 * hex_value(sp[j][0]) + hex_value(sp[j][1])) as u8,
            out@.len() == 6,
        decreases 6 - k,
    {
        let (a, b) = parts[k];
        let ghost part = sp[k as int];
        assert(cs@.subrange(a as int, b as int) == part);
        if b - a != 2 {
            assert(!((sp[k as int]).len() == 2));
            assert(!(forall|j: int|
                0 <= j < 6 ==> (#[trigger] sp[j]).len() == 2 && is_hex_digit(sp[j][0])
                    && is_hex_digit(sp[j][1])));
            return None;
        }
        assert(part[0] == cs@[a as int]);
        assert(part[1] == cs@[a + 1]);
        if !char_is_hex_digit(cs[a]) || !char_is_hex_digit(cs[a + 1]) {
            assert(!(is_hex_digit(sp[k as int][0]) && is_hex_digit(sp[k as int][1])));
            assert(!(forall|j: int|
                0 <= j < 6 ==> (#[trigger] sp[j]).len() == 2 && is_hex_digit(sp[j][0])
                    && is_hex_digit(sp[j][1])));
            return None;
        }
        let hi = char_hex_value(cs[a]);
        let lo = char_hex_value(cs[a + 1]);
        out[k] = hi * 16 + lo;
        k = k + 1;
    }
    assert(out@ =~= spec_parse_mac_text(s@)->0);
    Some(out)
}

/// Lexicographic order of character sequences (the order of `str::cmp`).
pub open spec fn seq_lt(a: Seq<char>, b: Seq<char>) -> bool
    decreases a.len(),
{
    if a.len() == 0 {
        b.len() > 0
    } else if b.len() == 0 {
        false
    } else if a[0] < b[0] {
        true
    } else if a[0] == b[0] {
        seq_lt(a.drop_first(), b.drop_first())
    } else {
        false
    }
}

fn chars_lt(a: &[char], b: &[char]) -> (r: bool)
    ensures
        r == seq_lt(a@, b@),
{
    let mut i: usize = 0;
    assert(a@.subrange(0, a@.len() as int) =~= a@);
    assert(b@.subrange(0, b@.len() as int) =~= b@);
    while i < a.len() && i < b.len()
        invariant
            0 <= i <= a.len(),
            i <= b.len(),
            forall|j: int| 0 <= j < i ==> a@[j] == b@[j],
            seq_lt(a@, b@) == seq_lt(a@.subrange(i as int, a@.len() as int), b@.subrange(i as int, b@.len() as int)),
        decreases a.len() - i,
    {
        if a[i] < b[i] {
            return true;
        }
        if a[i] != b[i] {
            return false;
        }
        assert(a@.subrange(i as int, a@.len() as int).drop_first() =~= a@.subrange(i + 1, a@.len() as int));
        assert(b@.subrange(i as int, b@.len() as int).drop_first() =~= b@.subrange(i + 1, b@.len() as int));
        i = i + 1;
    }
    i < b.len()
}

/// Interface order for MAC discovery: physical-looking names first,
/// alphabetical within each tier.
pub open spec fn interface_precedes(a: Seq<char>, b: Seq<char>) -> bool {
    (spec_is_physical_prefix(a) && !spec_is_physical_prefix(b)) || (spec_is_physical_prefix(a)
        == spec_is_physical_prefix(b) && seq_lt(a, b))
}

/// The MAC an interface contributes: none for loopback or virtual
/// interfaces, unreadable or malformed address files, or the all-zero MAC.
pub open spec fn candidate_mac(name: Seq<char>, address: Option<Seq<char>>) -> Option<Seq<u8>> {
    if name == "lo"@ || spec_is_virtual_interface(name) {
        None
    } else {
        match address {
            None => None,
            Some(text) => match spec_parse_mac_text(trim(text)) {
                Some(m) => if m == seq![0u8, 0u8, 0u8, 0u8, 0u8, 0u8] {
                    None
                } else {
                    Some(m)
                },
                None => None,
            },
        }
    }
}

pub open spec fn opt_view(o: Option<String>) -> Option<Seq<char>> {
    match o {
        Some(s) => Some(s@),
        None => None,
    }
}

pub open spec fn candidate_at(interfaces: Seq<(String, Option<String>)>, i: int) -> Option<Seq<u8>> {
    candidate_mac(interfaces[i].0@, opt_view(interfaces[i].1))
}

fn candidate(name: &String, address: &Option<String>) -> (r: Option<[u8; 6]>)
    ensures
        r matches Some(m) ==> candidate_mac(name@, opt_view(*address)) == Some(m@),
        r is None ==> candidate_mac(name@, opt_view(*address)) is None,
{
    if crate::lex::str_eq(name.as_str(), "lo") || is_virtual_interface(name.as_str()) {
        return None;
    }
    match address {
        None => None,
        Some(text) => {
            let cs = chars_of(text.as_str());
            let (a, b) = trim_bounds(cs.as_slice());
            let trimmed = text.as_str().substring_char(a, b);
            match parse_mac_text(trimmed) {
                Some(m) => {
                    if m[0] == 0 && m[1] == 0 && m[2] == 0 && m[3] == 0 && m[4] == 0 && m[5] == 0 {
                        assert(m@ =~= seq![0u8, 0u8, 0u8, 0u8, 0u8, 0u8]);
                        None
                    } else {
                        proof {
                            if m@ == seq![0u8, 0u8, 0u8, 0u8, 0u8, 0u8] {
                                assert(m@[0] == 0 && m@[1] == 0 && m@[2] == 0);
                            }
                        }
                        Some(m)
                    }
                },
                None => None,
            }
        },
    }
}

/// The primary network interface's MAC among the given `(name, contents of
/// its address file)` pairs (contents `None` when unreadable): the first
/// interface, in `interface_precedes` order, that contributes a MAC.
pub fn host_mac(interfaces: &Vec<(String, Option<String>)>) -> (r: Option<[u8; 6]>)
    ensures
        is_host_mac_choice(interfaces@, mac_view(r)),
{
    let mut best: Option<[u8; 6]> = None;
    let mut best_idx: usize = 0;
    let mut i: usize = 0;
    while i < interfaces.len()
        invariant
            0 <= i <= interfaces.len(),
            best is None <==> forall|j: int| 0 <= j < i ==> candidate_at(interfaces@, j) is None,
            best matches Some(m) ==> best_idx < i && candidate_at(interfaces@, best_idx as int) == Some(m@)
                && forall|j: int|
                0 <= j < i && candidate_at(interfaces@, j) is Some ==> !interface_precedes(
                    interfaces@[j].0@,
                    interfaces@[best_idx as int].0@,
                ) && (j < best_idx ==> interface_precedes(
                    interfaces@[best_idx as int].0@,
                    interfaces@[j].0@,
                )),
        decreases interfaces.len() - i,
    {
        let (name, address) = &interfaces[i];
        match candidate(name, address) {
            None => {},
            Some(m) => {
                let better = match best {
                    None => true,
                    Some(_) => {
                        let (best_name, _) = &interfaces[best_idx];
                        precedes(name.as_str(), best_name.as_str())
                    },
                };
                let ghost ni = interfaces@[i as int].0@;
                let ghost ob = best_idx;
                if better {
                    proof {
                        assert forall|j: int|
                            0 <= j < i + 1 && candidate_at(interfaces@, j) is Some implies !interface_precedes(
                                interfaces@[j].0@,
                                ni,
                            ) && (j < i ==> interface_precedes(ni, interfaces@[j].0@)) by {
                            let nj = interfaces@[j].0@;
                            let nb = interfaces@[ob as int].0@;
                            lemma_precedes(ni, nb, nj);
                            lemma_precedes(nj, ni, nj);
                            lemma_precedes(nb, nj, nb);
                        }
                    }
                    best = Some(m);
                    best_idx = i;
                } else {
                    proof {
                        lemma_precedes(ni, ni, ni);
                    }
                }

            },
        }
        i = i + 1;
    }
    proof {
        if let Some(m) = best {
            assert(candidate_at(interfaces@, best_idx as int) == Some(m@));
        }
    }
    best
}

fn precedes(a: &str, b: &str) -> (r: bool)
    ensures
        r == interface_precedes(a@, b@),
{
    let pa = is_physical_prefix(a);
    let pb = is_physical_prefix(b);
    let ca = chars_of(a);
    let cb = chars_of(b);
    (pa && !pb) || (pa == pb && chars_lt(ca.as_slice(), cb.as_slice()))
}

proof fn lemma_seq_lt_irrefl(a: Seq<char>)
    ensures
        !seq_lt(a, a),
    decreases a.len(),
{
    if a.len() > 0 {
        lemma_seq_lt_irrefl(a.drop_first());
    }
}

proof fn lemma_seq_lt_asym(a: Seq<char>, b: Seq<char>)
    ensures
        seq_lt(a, b) ==> !seq_lt(b, a),
    decreases a.len(),
{
    if a.len() > 0 && b.len() > 0 {
        lemma_seq_lt_asym(a.drop_first(), b.drop_first());
    }
}

proof fn lemma_seq_lt_trans(a: Seq<char>, b: Seq<char>, c: Seq<char>)
    ensures
        seq_lt(a, b) && seq_lt(b, c) ==> seq_lt(a, c),
    decreases a.len(),
{
    if a.len() > 0 && b.len() > 0 && c.len() > 0 {
        lemma_seq_lt_trans(a.drop_first(), b.drop_first(), c.drop_first());
    }
}

proof fn lemma_seq_lt_total(a: Seq<char>, b: Seq<char>)
    ensures
        !seq_lt(a, b) && !seq_lt(b, a) ==> a == b,
    decreases a.len(),
{
    if a.len() > 0 && b.len() > 0 {
        lemma_seq_lt_total(a.drop_first(), b.drop_first());
        if !seq_lt(a, b) && !seq_lt(b, a) {
            assert(a =~= seq![a[0]] + a.drop_first());
            assert(b =~= seq![b[0]] + b.drop_first());
        }
    } else if a.len() == 0 && b.len() == 0 {
        assert(a =~= b);
    }
}

/// `interface_precedes` is a strict total order on names.
proof fn lemma_precedes(a: Seq<char>, b: Seq<char>, c: Seq<char>)
    ensures
        !interface_precedes(a, a),
        interface_precedes(a, b) ==> !interface_precedes(b, a),
        interface_precedes(a, b) && interface_precedes(b, c) ==> interface_precedes(a, c),
        !interface_precedes(a, b) && !interface_precedes(b, a) ==> a == b,
{
    lemma_seq_lt_irrefl(a);
    lemma_seq_lt_asym(a, b);
    lemma_seq_lt_trans(a, b, c);
    lemma_seq_lt_total(a, b);
}

/// What `host_mac` may return for `interfaces`: `None` exactly when no
/// interface contributes a MAC, otherwise the MAC of the first interface in
/// `interface_precedes` order that contributes one.
pub open spec fn is_host_mac_choice(interfaces: Seq<(String, Option<String>)>, r: Option<Seq<u8>>) -> bool {
    &&& (r is None <==> forall|i: int| 0 <= i < interfaces.len() ==> candidate_at(interfaces, i) is None)
    &&& (r matches Some(m) ==> exists|i: int|
        0 <= i < interfaces.len() && candidate_at(interfaces, i) == Some(m) && forall|j: int|
            0 <= j < interfaces.len() && candidate_at(interfaces, j) is Some ==> !interface_precedes(
                interfaces[j].0@,
                interfaces[i].0@,
            ) && (j < i ==> interface_precedes(interfaces[i].0@, interfaces[j].0@)))
}

pub open spec fn mac_view(r: Option<[u8; 6]>) -> Option<Seq<u8>> {
    match r {
        Some(m) => Some(m@),
        None => None,
    }
}

/// The text payload for the hostname fallback: the hostname, or
/// `snmptrap-rs` when it is unknown or empty.
pub open spec fn fallback_text(hostname: Option<Seq<char>>) -> Seq<char> {
    match hostname {
        Some(h) => if h.len() > 0 { h } else { "snmptrap-rs"@ },
        None => "snmptrap-rs"@,
    }
}

pub open spec fn text_engine_id(text: Seq<char>) -> Seq<u8> {
    pen_engine_id(
        FORMAT_TEXT,
        encode_utf8(text).take(min(encode_utf8(text).len() as int, MAX_PAYLOAD as int)),
    )
}

/// What the engine-ID cascade may give: the user's engine-ID, else format 1
/// from the source address, else format 3 from the host MAC chosen among
/// `interfaces`, else format 4 from the hostname.
pub open spec fn is_resolved_engine_id(
    user: Option<Seq<u8>>,
    src_addr_v4: Option<Ipv4Addr>,
    interfaces: Seq<(String, Option<String>)>,
    hostname: Option<Seq<char>>,
    r: Seq<u8>,
) -> bool {
    match user {
        Some(u) => r == u,
        None => match src_addr_v4 {
            Some(a) => r == pen_engine_id(FORMAT_IPV4, a.spec_octets()),
            None => exists|m: Option<Seq<u8>>|
                is_host_mac_choice(interfaces, m) && match m {
                    Some(mac) => r == pen_engine_id(FORMAT_MAC, mac),
                    None => r == text_engine_id(fallback_text(hostname)),
                },
        },
    }
}

/// Resolves the authoritative engine-ID: the user's `-E` value, else
/// format 1 from `--src-addr`, else format 3 from the host MAC found among
/// `interfaces`, else format 4 from the hostname.
pub fn resolve(
    user_authoritative: Option<&EngineId>,
    src_addr_v4: Option<Ipv4Addr>,
    interfaces: &Vec<(String, Option<String>)>,
    hostname: &Option<String>,
) -> (r: EngineId)
    ensures
        is_resolved_engine_id(
            match user_authoritative {
                Some(u) => Some(u@),
                None => None,
            },
            src_addr_v4,
            interfaces@,
            opt_view(*hostname),
            r@,
        ),
{
    if let Some(eid) = user_authoritative {
        return eid.duplicate();
    }
    if let Some(addr) = src_addr_v4 {
        return EngineId::from_ipv4(addr);
    }
    let mac = host_mac(interfaces);
    assert(is_host_mac_choice(interfaces@, mac_view(mac)));
    if let Some(m) = mac {
        return EngineId::from_mac(m);
    }
    match hostname {
        Some(h) => {
            if h.as_str().unicode_len() > 0 {
                EngineId::from_text(h.as_str())
            } else {
                EngineId::from_text("snmptrap-rs")
            }
        },
        None => EngineId::from_text("snmptrap-rs"),
    }
}

} // verus!
