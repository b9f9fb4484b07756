//! Var-bind values and the text forms a user types for them
//! (`OID TYPE VALUE` triplets on the command line).

use vstd::prelude::*;
use vstd::string::*;
use vstd::utf8::encode_utf8;
use crate::lex::{
    char_hex_value, char_is_hex_digit, char_is_ws, chars_of, hex_value, is_hex_digit, is_ws,
    parse_signed, parse_unsigned, parse_unsigned_range, trim, trim_bounds,
    IntErrorKind,
};
use crate::net::{parse_ipv4, spec_parse_ipv4, Ipv4Addr};
use crate::split::{split_char, split_ranges, Separator};
use crate::text::{concat3, dec, push_dec, text};

verus! {

#[derive(Debug, Clone, PartialEq, Eq)]
pub enum VarBindValue {
    Integer(i32),
    Unsigned32(u32),
    TimeTicks(u32),
    IpAddress(Ipv4Addr),
    ObjectId(Vec<u32>),
    OctetString(Vec<u8>),
    Null,
    Bits(Vec<u8>),
    Counter64(u64),
}

#[derive(Debug)]
pub enum ParseError {
    UnknownLetter { letter: char },
    BadValue { letter: char, detail: String },
}

/// The mathematical content of a var-bind value.
pub enum ValueSpec {
    Integer(int),
    Unsigned32(nat),
    TimeTicks(nat),
    IpAddress(Ipv4Addr),
    ObjectId(Seq<u32>),
    OctetString(Seq<u8>),
    Null,
    Bits(Seq<u8>),
    Counter64(nat),
}

impl View for VarBindValue {
    type V = ValueSpec;

    open spec fn view(&self) -> ValueSpec {
        match self {
            VarBindValue::Integer(i) => ValueSpec::Integer(*i as int),
            VarBindValue::Unsigned32(u) => ValueSpec::Unsigned32(*u as nat),
            VarBindValue::TimeTicks(t) => ValueSpec::TimeTicks(*t as nat),
            VarBindValue::IpAddress(ip) => ValueSpec::IpAddress(*ip),
            VarBindValue::ObjectId(arcs) => ValueSpec::ObjectId(arcs@),
            VarBindValue::OctetString(b) => ValueSpec::OctetString(b@),
            VarBindValue::Null => ValueSpec::Null,
            VarBindValue::Bits(b) => ValueSpec::Bits(b@),
            VarBindValue::Counter64(n) => ValueSpec::Counter64(*n as nat),
        }
    }
}

/// The content of a parse failure.
pub enum ParseErrorSpec {
    UnknownLetter(char),
    BadValue(char, Seq<char>),
}

impl View for ParseError {
    type V = ParseErrorSpec;

    open spec fn view(&self) -> ParseErrorSpec {
        match self {
            ParseError::UnknownLetter { letter } => ParseErrorSpec::UnknownLetter(*letter),
            ParseError::BadValue { letter, detail } => ParseErrorSpec::BadValue(*letter, detail@),
        }
    }
}

// ---------------------------------------------------------------------
// OBJECT IDENTIFIER text
// ---------------------------------------------------------------------

/// `s` without its leading `c` characters (`str::trim_start_matches`).
pub open spec fn strip_leading(s: Seq<char>, c: char) -> Seq<char>
    decreases s.len(),
{
    if s.len() > 0 && s[0] == c {
        strip_leading(s.drop_first(), c)
    } else {
        s
    }
}

/// The arcs of the dot-separated pieces `toks`, or the message for the
/// first piece that is not an unsigned 32-bit decimal.
pub open spec fn oid_arcs(s: Seq<char>, toks: Seq<Seq<char>>) -> Result<Seq<u32>, Seq<char>>
    decreases toks.len(),
{
    if toks.len() == 0 {
        Ok(Seq::<u32>::empty())
    } else {
        match oid_arcs(s, toks.drop_last()) {
            Err(e) => Err(e),
            Ok(arcs) => {
                let tok = toks.last();
                if tok.len() == 0 {
                    Err("empty arc in OID '"@ + s + "'"@)
                } else {
                    match parse_unsigned(tok, u32::MAX as nat) {
                        Ok(v) => Ok(arcs.push(v as u32)),
                        Err(k) => Err(
                            "invalid arc '"@ + tok + "' in OID '"@ + s + "': "@
                                + k.spec_description(),
                        ),
                    }
                }
            },
        }
    }
}

/// The arcs that a numeric OID text names, or why it names none.
pub open spec fn spec_parse_oid(s: Seq<char>) -> Result<Seq<u32>, Seq<char>> {
    if s.len() == 0 {
        Err("empty OID"@)
    } else {
        match oid_arcs(s, split_char(strip_leading(s, '.'), Separator::Char('.'))) {
            Err(e) => Err(e),
            Ok(arcs) => if arcs.len() < 2 {
                Err("OID '"@ + s + "' has fewer than two arcs"@)
            } else if arcs[0] > 2 {
                Err("OID '"@ + s + "' first arc must be 0, 1, or 2, got "@ + dec(arcs[0] as nat))
            } else if arcs[0] < 2 && arcs[1] >= 40 {
                Err(
                    "OID '"@ + s + "' second arc must be < 40 when first arc is "@ + dec(
                        arcs[0] as nat,
                    ) + ", got "@ + dec(arcs[1] as nat),
                )
            } else {
                Ok(arcs)
            },
        }
    }
}

/// Every OID the parser accepts can be encoded in BER (at least two arcs,
/// the first 0, 1 or 2) and reads back as itself (second arc below 40
/// unless the first is 2).
pub proof fn lemma_parsed_oid_encodable(s: Seq<char>)
    ensures
        spec_parse_oid(s) matches Ok(arcs) ==> crate::ber::oid_encodable(arcs),
        spec_parse_oid(s) matches Ok(arcs) ==> crate::decode::oid_canonical(arcs),
{
}

/// Parses a numeric OID such as `1.3.6.1.4.1.8072` (a leading dot is
/// allowed). The first arc must be 0, 1 or 2, and the second below 40 when
/// the first is 0 or 1, so that the BER first octet is unambiguous.
pub fn parse_oid(s: &str) -> (r: Result<Vec<u32>, String>)
    ensures
        r matches Ok(v) ==> spec_parse_oid(s@) == Ok::<Seq<u32>, Seq<char>>(v@),
        r matches Err(m) ==> spec_parse_oid(s@) == Err::<Seq<u32>, Seq<char>>(m@),
        r matches Ok(v) ==> crate::ber::oid_encodable(v@),
{
    let cs = chars_of(s);
    if cs.len() == 0 {
        return Err(text("empty OID"));
    }
    let n = cs.len();
    let mut lead: usize = 0;
    assert(cs@.subrange(0, n as int) =~= s@);
    while lead < n && cs[lead] == '.'
        invariant
            0 <= lead <= n,
            n == cs@.len(),
            cs@ == s@,
            strip_leading(s@, '.') == strip_leading(cs@.subrange(lead as int, n as int), '.'),
        decreases n - lead,
    {
        assert(cs@.subrange(lead as int, n as int).drop_first() =~= cs@.subrange(
            lead + 1,
            n as int,
        ));
        lead = lead + 1;
    }
    let ghost t = cs@.subrange(lead as int, n as int);
    assert(strip_leading(t, '.') == t);
    let parts = split_ranges(cs.as_slice(), lead, n, Separator::Char('.'));
    let ghost toks = split_char(t, Separator::Char('.'));
    let mut arcs: Vec<u32> = Vec::new();
    let mut k: usize = 0;
    assert(toks.take(0) =~= Seq::<Seq<char>>::empty());
    while k < parts.len()
        invariant
            0 <= k <= parts.len(),
            parts@.len() == toks.len(),
            n == cs@.len(),
            n > 0,
            cs@ == s@,
            toks == split_char(strip_leading(s@, '.'), Separator::Char('.')),
            forall|j: int|
                0 <= j < parts@.len() ==> lead <= (#[trigger] parts@[j]).0 <= parts@[j].1 <= n
                    && cs@.subrange(parts@[j].0 as int, parts@[j].1 as int) == toks[j],
            oid_arcs(s@, toks.take(k as int)) == Ok::<Seq<u32>, Seq<char>>(arcs@),
        decreases parts.len() - k,
    {
        let (a, b) = parts[k];
        let ghost tok = toks[k as int];
        assert(cs@.subrange(a as int, b as int) == tok);
        assert(toks.take(k + 1).drop_last() =~= toks.take(k as int));
        assert(toks.take(k + 1).last() == tok);
        if a == b {
            assert(tok.len() == 0);
            assert(oid_arcs(s@, toks.take(k + 1)) == Err::<Seq<u32>, Seq<char>>(
                "empty arc in OID '"@ + s@ + "'"@,
            ));
            proof {
                lemma_oid_arcs_prefix_err(s@, toks, (k + 1) as nat);
            }
            return Err(concat3("empty arc in OID '", s, "'"));
        }
        match parse_unsigned_range(cs.as_slice(), a, b, u32::MAX as u64) {
            Ok(v) => {
                proof {
                    lemma_u32_bound(tok);
                }
                arcs.push(v as u32);
            },
            Err(e) => {
                let mut m = text("invalid arc '");
                m.append(s.substring_char(a, b));
                m.append("' in OID '");
                m.append(s);
                m.append("': ");
                m.append(e.description());
                proof {
                    lemma_oid_arcs_prefix_err(s@, toks, (k + 1) as nat);
                    assert(m@ =~= "invalid arc '"@ + tok + "' in OID '"@ + s@ + "': "@
                        + e.spec_description());
                }
                return Err(m);
            },
        }
        k = k + 1;
    }
    assert(toks.take(k as int) =~= toks);
    if arcs.len() < 2 {
        return Err(concat3("OID '", s, "' has fewer than two arcs"));
    }
    if arcs[0] > 2 {
        let mut m = concat3("OID '", s, "' first arc must be 0, 1, or 2, got ");
        push_dec(&mut m, arcs[0] as u64);
        return Err(m);
    }
    if arcs[0] < 2 && arcs[1] >= 40 {
        let mut m = concat3("OID '", s, "' second arc must be < 40 when first arc is ");
        push_dec(&mut m, arcs[0] as u64);
        m.append(", got ");
        push_dec(&mut m, arcs[1] as u64);
        return Err(m);
    }
    Ok(arcs)
}

proof fn lemma_u32_bound(tok: Seq<char>)
    ensures
        parse_unsigned(tok, u32::MAX as nat) matches Ok(v) ==> v <= u32::MAX,
{
    crate::lex::lemma_parse_unsigned_bound(tok, u32::MAX as nat);
}

/// Once the arcs of a prefix of the pieces fail, the arcs of all pieces
/// fail with the same message.
proof fn lemma_oid_arcs_prefix_err(s: Seq<char>, toks: Seq<Seq<char>>, k: nat)
    requires
        k <= toks.len(),
        oid_arcs(s, toks.take(k as int)) is Err,
    ensures
        oid_arcs(s, toks) == oid_arcs(s, toks.take(k as int)),
    decreases toks.len(),
{
    if k < toks.len() {
        assert(toks.drop_last().take(k as int) =~= toks.take(k as int));
        lemma_oid_arcs_prefix_err(s, toks.drop_last(), k);
    } else {
        assert(toks.take(k as int) =~= toks);
    }
}

// ---------------------------------------------------------------------
// Hex OCTET STRING text
// ---------------------------------------------------------------------

/// The trimmed text without a leading `0x` / `0X`.
pub open spec fn hex_body(raw: Seq<char>) -> Seq<char> {
    let t = trim(raw);
    if t.len() >= 2 && t[0] == '0' && (t[1] == 'x' || t[1] == 'X') {
        t.subrange(2, t.len() as int)
    } else {
        t
    }
}

/// The text without whitespace and `:` separators.
pub open spec fn hex_clean(s: Seq<char>) -> Seq<char>
    decreases s.len(),
{
    if s.len() == 0 {
        s
    } else if is_ws(s.last()) || s.last() == ':' {
        hex_clean(s.drop_last())
    } else {
        hex_clean(s.drop_last()).push(s.last())
    }
}

/// Index of the first non-hex-digit character (the length when there is none).
pub open spec fn first_non_hex(s: Seq<char>) -> nat
    decreases s.len(),
{
    if s.len() == 0 {
        0
    } else if !is_hex_digit(s[0]) {
        0
    } else {
        1 + first_non_hex(s.drop_first())
    }
}

/// Octets spelled by pairs of hex digits.
pub open spec fn hex_pairs(s: Seq<char>) -> Seq<u8> {
    Seq::new(s.len() / 2, |k: int| (16 * hex_value(s[2 * k]) + hex_value(s[2 * k + 1])) as u8)
}

/// The octets that a hex text spells (`:` and whitespace separators and a
/// `0x` prefix allowed), or why it spells none.
pub open spec fn spec_parse_hex(raw: Seq<char>) -> Result<Seq<u8>, Seq<char>> {
    let c = hex_clean(hex_body(raw));
    if c.len() == 0 {
        Ok(Seq::<u8>::empty())
    } else if first_non_hex(c) < c.len() {
        Err("non-hex character '"@ + seq![c[first_non_hex(c) as int]] + "' in '"@ + raw + "'"@)
    } else if c.len() % 2 != 0 {
        Err(
            "hex string '"@ + raw + "' has odd character count after stripping separators ("@
                + dec(c.len()) + ")"@,
        )
    } else {
        Ok(hex_pairs(c))
    }
}

proof fn lemma_first_non_hex(s: Seq<char>)
    ensures
        first_non_hex(s) <= s.len(),
        forall|i: int| 0 <= i < first_non_hex(s) ==> is_hex_digit(s[i]),
        first_non_hex(s) < s.len() ==> !is_hex_digit(s[first_non_hex(s) as int]),
    decreases s.len(),
{
    if s.len() > 0 && is_hex_digit(s[0]) {
        lemma_first_non_hex(s.drop_first());
        assert forall|i: int| 0 <= i < first_non_hex(s) implies is_hex_digit(s[i]) by {
            if i > 0 {
                assert(s[i] == s.drop_first()[i - 1]);
            }
        }
    }
}

proof fn lemma_first_non_hex_at(s: Seq<char>, k: int)
    requires
        0 <= k < s.len(),
        forall|i: int| 0 <= i < k ==> is_hex_digit(s[i]),
        !is_hex_digit(s[k]),
    ensures
        first_non_hex(s) == k,
    decreases s.len(),
{
    if k > 0 {
        assert forall|i: int| 0 <= i < k - 1 implies is_hex_digit(s.drop_first()[i]) by {
            assert(s.drop_first()[i] == s[i + 1]);
        }
        lemma_first_non_hex_at(s.drop_first(), k - 1);
    }
}

proof fn lemma_first_non_hex_none(s: Seq<char>)
    requires
        forall|i: int| 0 <= i < s.len() ==> is_hex_digit(s[i]),
    ensures
        first_non_hex(s) == s.len(),
    decreases s.len(),
{
    if s.len() > 0 {
        assert forall|i: int| 0 <= i < s.len() - 1 implies is_hex_digit(s.drop_first()[i]) by {
            assert(s.drop_first()[i] == s[i + 1]);
        }
        lemma_first_non_hex_none(s.drop_first());
    }
}

/// Decodes a hex string such as `de:ad:be:ef`, `DEADBEEF` or `0xdead`.
pub fn parse_hex_string(raw: &str) -> (r: Result<Vec<u8>, String>)
    ensures
        r matches Ok(v) ==> spec_parse_hex(raw@) == Ok::<Seq<u8>, Seq<char>>(v@),
        r matches Err(m) ==> spec_parse_hex(raw@) == Err::<Seq<u8>, Seq<char>>(m@),
{
    let cs = chars_of(raw);
    let (tf, tt) = trim_bounds(cs.as_slice());
    let ghost t = cs@.subrange(tf as int, tt as int);
    let mut from = tf;
    if tt - tf >= 2 && cs[tf] == '0' && (cs[tf + 1] == 'x' || cs[tf + 1] == 'X') {
        from = tf + 2;
        assert(t.subrange(2, t.len() as int) =~= cs@.subrange(from as int, tt as int));
    } else {
        assert(t =~= cs@.subrange(from as int, tt as int));
    }
    // Keep the characters that are not separators, with their positions.
    let mut clean: Vec<char> = Vec::new();
    let mut pos: Vec<usize> = Vec::new();
    let mut i: usize = from;
    assert(cs@.subrange(from as int, from as int) =~= Seq::<char>::empty());
    while i < tt
        invariant
            from <= i <= tt <= cs@.len(),
            cs@ == raw@,
            clean@ == hex_clean(cs@.subrange(from as int, i as int)),
            pos@.len() == clean@.len(),
            forall|j: int|
                0 <= j < pos@.len() ==> (#[trigger] pos@[j]) < cs@.len() && cs@[pos@[j] as int]
                    == clean@[j],
        decreases tt - i,
    {
        let c = cs[i];
        assert(cs@.subrange(from as int, i + 1).drop_last() =~= cs@.subrange(from as int, i as int));
        if !(char_is_ws(c) || c == ':') {
            clean.push(c);
            pos.push(i);
        }
        i = i + 1;
    }
    assert(hex_body(raw@) == cs@.subrange(from as int, tt as int));
    assert(clean@ == hex_clean(hex_body(raw@)));
    if clean.len() == 0 {
        return Ok(Vec::new());
    }
    let mut k: usize = 0;
    while k < clean.len()
        invariant
            0 <= k <= clean.len(),
            forall|j: int| 0 <= j < k ==> is_hex_digit(clean@[j]),
            cs@ == raw@,
            clean@ == hex_clean(hex_body(raw@)),
            clean@.len() > 0,
            pos@.len() == clean@.len(),
            forall|j: int|
                0 <= j < pos@.len() ==> (#[trigger] pos@[j]) < cs@.len() && cs@[pos@[j] as int]
                    == clean@[j],
        decreases clean.len() - k,
    {
        if !char_is_hex_digit(clean[k]) {
            proof {
                lemma_first_non_hex_at(clean@, k as int);
            }
            assert(pos@[k as int] < cs@.len());
            let p = pos[k];
            assert(p < cs.len());
            let mut m = text("non-hex character '");
            m.append(raw.substring_char(p, p + 1));
            m.append("' in '");
            m.append(raw);
            m.append("'");
            assert(raw@.subrange(p as int, p + 1) =~= seq![clean@[k as int]]);
            return Err(m);
        }
        k = k + 1;
    }
    proof {
        lemma_first_non_hex_none(clean@);
    }
    if clean.len() % 2 != 0 {
        let mut m = concat3("hex string '", raw, "' has odd character count after stripping separators (");
        push_dec(&mut m, clean.len() as u64);
        m.append(")");
        return Err(m);
    }
    let mut out: Vec<u8> = Vec::new();
    let mut q: usize = 0;
    while q < clean.len() / 2
        invariant
            0 <= q <= clean.len() / 2,
            clean.len() % 2 == 0,
            forall|j: int| 0 <= j < clean@.len() ==> is_hex_digit(clean@[j]),
            out@ =~= hex_pairs(clean@).subrange(0, q as int),
        decreases clean.len() / 2 - q,
    {
        let hi = char_hex_value(clean[2 * q]);
        let lo = char_hex_value(clean[2 * q + 1]);
        out.push(hi * 16 + lo);
        q = q + 1;
        assert(out@ =~= hex_pairs(clean@).subrange(0, q as int));
    }
    assert(hex_pairs(clean@).subrange(0, q as int) =~= hex_pairs(clean@));
    Ok(out)
}

// ---------------------------------------------------------------------
// BITS text
// ---------------------------------------------------------------------

/// Highest bit position a BITS value may name.
pub const MAX_BIT_POSITION: u32 = 65535;

/// The non-empty pieces, in order.
pub open spec fn nonempty_pieces(toks: Seq<Seq<char>>) -> Seq<Seq<char>>
    decreases toks.len(),
{
    if toks.len() == 0 {
        toks
    } else if toks.last().len() == 0 {
        nonempty_pieces(toks.drop_last())
    } else {
        nonempty_pieces(toks.drop_last()).push(toks.last())
    }
}

/// Every piece as an unsigned 32-bit decimal, or the first failure.
pub open spec fn bit_positions(toks: Seq<Seq<char>>) -> Result<Seq<u32>, IntErrorKind>
    decreases toks.len(),
{
    if toks.len() == 0 {
        Ok(Seq::<u32>::empty())
    } else {
        match bit_positions(toks.drop_last()) {
            Err(e) => Err(e),
            Ok(ps) => match parse_unsigned(toks.last(), u32::MAX as nat) {
                Ok(v) => Ok(ps.push(v as u32)),
                Err(e) => Err(e),
            },
        }
    }
}

/// Largest element of a non-empty sequence.
pub open spec fn seq_max(ps: Seq<u32>) -> u32
    decreases ps.len(),
{
    if ps.len() <= 1 {
        ps[0]
    } else if seq_max(ps.drop_last()) >= ps.last() {
        seq_max(ps.drop_last())
    } else {
        ps.last()
    }
}

/// The BITS octet holding position `p` (bit 0 is the most significant bit
/// of the first octet).
pub open spec fn bit_octet(p: u32) -> int {
    (p / 8) as int
}

/// The mask for position `p` within its octet.
pub open spec fn bit_mask(p: u32) -> u8 {
    (1u8 << (7 - p % 8) as u8) as u8
}

/// `bytes` with every position of `ps` set.
pub open spec fn set_bits(bytes: Seq<u8>, ps: Seq<u32>) -> Seq<u8>
    decreases ps.len(),
{
    if ps.len() == 0 {
        bytes
    } else {
        let prev = set_bits(bytes, ps.drop_last());
        let p = ps.last();
        if bit_octet(p) < prev.len() {
            prev.update(bit_octet(p), prev[bit_octet(p)] | bit_mask(p))
        } else {
            prev
        }
    }
}

/// The BITS octets for a list of bit positions such as `0,1,2` or `0 1 2`,
/// or why there are none.
pub open spec fn spec_parse_bits(raw: Seq<char>) -> Result<Seq<u8>, Seq<char>> {
    if trim(raw).len() == 0 {
        Ok(Seq::<u8>::empty())
    } else {
        match bit_positions(nonempty_pieces(split_char(raw, Separator::CommaOrWhitespace))) {
            Err(k) => Err("invalid BITS positions in '"@ + raw + "': "@ + k.spec_description()),
            Ok(ps) => if ps.len() == 0 {
                Ok(Seq::<u8>::empty())
            } else if seq_max(ps) > MAX_BIT_POSITION {
                Err("BITS position "@ + dec(seq_max(ps) as nat) + " exceeds maximum 65535"@)
            } else {
                Ok(set_bits(Seq::new((seq_max(ps) / 8 + 1) as nat, |i: int| 0u8), ps))
            },
        }
    }
}

proof fn lemma_seq_max(ps: Seq<u32>)
    requires
        ps.len() > 0,
    ensures
        forall|i: int| 0 <= i < ps.len() ==> ps[i] <= seq_max(ps),
    decreases ps.len(),
{
    if ps.len() > 1 {
        lemma_seq_max(ps.drop_last());
        assert forall|i: int| 0 <= i < ps.len() implies ps[i] <= seq_max(ps) by {
            if i < ps.len() - 1 {
                assert(ps[i] == ps.drop_last()[i]);
            }
        }
    }
}

proof fn lemma_set_bits_len(bytes: Seq<u8>, ps: Seq<u32>)
    ensures
        set_bits(bytes, ps).len() == bytes.len(),
    decreases ps.len(),
{
    if ps.len() > 0 {
        lemma_set_bits_len(bytes, ps.drop_last());
    }
}

proof fn lemma_bit_positions_prefix_err(toks: Seq<Seq<char>>, k: nat)
    requires
        k <= toks.len(),
        bit_positions(toks.take(k as int)) is Err,
    ensures
        bit_positions(toks) == bit_positions(toks.take(k as int)),
    decreases toks.len(),
{
    if k < toks.len() {
        assert(toks.drop_last().take(k as int) =~= toks.take(k as int));
        lemma_bit_positions_prefix_err(toks.drop_last(), k);
    } else {
        assert(toks.take(k as int) =~= toks);
    }
}

proof fn lemma_seq_max_member(ps: Seq<u32>)
    requires
        ps.len() > 0,
    ensures
        exists|i: int| 0 <= i < ps.len() && ps[i] == seq_max(ps),
    decreases ps.len(),
{
    if ps.len() > 1 {
        lemma_seq_max_member(ps.drop_last());
        if seq_max(ps.drop_last()) >= ps.last() {
            let i = choose|i: int| 0 <= i < ps.drop_last().len() && ps.drop_last()[i] == seq_max(ps.drop_last());
            assert(ps[i] == seq_max(ps));
        } else {
            assert(ps[ps.len() - 1] == seq_max(ps));
        }
    } else {
        assert(ps[0] == seq_max(ps));
    }
}

proof fn lemma_or_keeps(x: u8, y: u8, m: u8)
    ensures
        x & m != 0 ==> (x | y) & m != 0,
{
    assert(x & m != 0 ==> (x | y) & m != 0) by (bit_vector);
}

proof fn lemma_mask_hits(x: u8, k: u8)
    requires
        k < 8,
    ensures
        (x | ((1u8 << (7 - k) as u8) as u8)) & (0x80u8 >> k) != 0,
{
    assert(k < 8 ==> (x | ((1u8 << (7 - k) as u8) as u8)) & (0x80u8 >> k) != 0) by (bit_vector);
}

/// Every position of `ps` whose octet exists is set in `set_bits`.
proof fn lemma_set_bits_sets(bytes: Seq<u8>, ps: Seq<u32>)
    ensures
        forall|i: int|
            0 <= i < ps.len() && (ps[i] / 8) < bytes.len() ==> #[trigger] set_bits(bytes, ps)[(ps[i]
                / 8) as int] & (0x80u8 >> (ps[i] % 8) as u8) != 0,
    decreases ps.len(),
{
    if ps.len() > 0 {
        let prev = set_bits(bytes, ps.drop_last());
        let p = ps.last();
        lemma_set_bits_len(bytes, ps.drop_last());
        lemma_set_bits_len(bytes, ps);
        lemma_set_bits_sets(bytes, ps.drop_last());
        let r = set_bits(bytes, ps);
        assert forall|i: int|
            0 <= i < ps.len() && (ps[i] / 8) < bytes.len() implies #[trigger] r[(ps[i] / 8) as int] & (
            0x80u8 >> (ps[i] % 8) as u8) != 0 by {
            let q = ps[i];
            let o = (q / 8) as int;
            let m = (0x80u8 >> (q % 8) as u8);
            if i < ps.len() - 1 {
                assert(ps.drop_last()[i] == q);
                assert(prev[o] & m != 0);
                if o == bit_octet(p) {
                    lemma_or_keeps(prev[o], bit_mask(p), m);
                }
            } else {
                assert(q == p);
                lemma_mask_hits(prev[o], (p % 8) as u8);
            }
        }
    }
}

/// What a BITS list means (RFC 2578 §7.1.4): the value has octets up to
/// the one that holds the highest listed position and no more, and every
/// listed position is set in it, bit 0 being the top bit of the first
/// octet, whatever the order of the list.
pub proof fn lemma_bits_positions_set(raw: Seq<char>, ps: Seq<u32>, r: Seq<u8>)
    requires
        trim(raw).len() > 0,
        bit_positions(nonempty_pieces(split_char(raw, Separator::CommaOrWhitespace))) == Ok::<
            Seq<u32>,
            IntErrorKind,
        >(ps),
        ps.len() > 0,
        spec_parse_bits(raw) == Ok::<Seq<u8>, Seq<char>>(r),
    ensures
        forall|i: int| 0 <= i < ps.len() ==> (ps[i] / 8) < r.len(),
        forall|i: int|
            0 <= i < ps.len() ==> #[trigger] r[(ps[i] / 8) as int] & (0x80u8 >> (ps[i] % 8) as u8) != 0,
        exists|i: int| 0 <= i < ps.len() && (ps[i] / 8) + 1 == r.len(),
{
    let zeros = Seq::new((seq_max(ps) / 8 + 1) as nat, |i: int| 0u8);
    assert(r == set_bits(zeros, ps));
    lemma_set_bits_len(zeros, ps);
    lemma_seq_max(ps);
    lemma_seq_max_member(ps);
    lemma_set_bits_sets(zeros, ps);
    assert forall|i: int| 0 <= i < ps.len() implies (ps[i] / 8) < r.len() by {
        assert(ps[i] <= seq_max(ps));
        assert(ps[i] / 8 <= seq_max(ps) / 8) by (nonlinear_arith)
            requires
                ps[i] <= seq_max(ps),
        ;
    }
    let j = choose|i: int| 0 <= i < ps.len() && ps[i] == seq_max(ps);
    assert((ps[j] / 8) + 1 == r.len());
}

/// Encodes a BITS list such as `0,1,2` as octets, bit 0 being the most
/// significant bit of the first octet.
pub fn parse_bits(raw: &str) -> (r: Result<Vec<u8>, String>)
    ensures
        r matches Ok(v) ==> spec_parse_bits(raw@) == Ok::<Seq<u8>, Seq<char>>(v@),
        r matches Err(m) ==> spec_parse_bits(raw@) == Err::<Seq<u8>, Seq<char>>(m@),
{
    let cs = chars_of(raw);
    let (tf, tt) = trim_bounds(cs.as_slice());
    if tf == tt {
        return Ok(Vec::new());
    }
    let n = cs.len();
    assert(cs@.subrange(0, n as int) =~= raw@);
    let parts = split_ranges(cs.as_slice(), 0, n, Separator::CommaOrWhitespace);
    let ghost toks = split_char(raw@, Separator::CommaOrWhitespace);
    let mut positions: Vec<u32> = Vec::new();
    let mut mx: u32 = 0;
    let mut k: usize = 0;
    assert(toks.take(0) =~= Seq::<Seq<char>>::empty());
    while k < parts.len()
        invariant
            0 <= k <= parts.len(),
            parts@.len() == toks.len(),
            n == cs@.len(),
            cs@ == raw@,
            toks == split_char(raw@, Separator::CommaOrWhitespace),
            forall|j: int|
                0 <= j < parts@.len() ==> 0 <= (#[trigger] parts@[j]).0 <= parts@[j].1 <= n
                    && cs@.subrange(parts@[j].0 as int, parts@[j].1 as int) == toks[j],
            bit_positions(nonempty_pieces(toks.take(k as int))) == Ok::<Seq<u32>, IntErrorKind>(
                positions@,
            ),
            positions@.len() > 0 ==> mx == seq_max(positions@),
            tf < tt <= n,
            cs@.subrange(tf as int, tt as int) == trim(raw@),
        decreases parts.len() - k,
    {
        let (a, b) = parts[k];
        let ghost tok = toks[k as int];
        assert(cs@.subrange(a as int, b as int) == tok);
        assert(toks.take(k + 1).drop_last() =~= toks.take(k as int));
        assert(toks.take(k + 1).last() == tok);
        if a != b {
            let ghost pieces = nonempty_pieces(toks.take(k + 1));
            assert(pieces == nonempty_pieces(toks.take(k as int)).push(tok));
            assert(pieces.drop_last() == nonempty_pieces(toks.take(k as int)));
            match parse_unsigned_range(cs.as_slice(), a, b, u32::MAX as u64) {
                Ok(v) => {
                    proof {
                        lemma_u32_bound(tok);
                    }
                    let ghost old_ps = positions@;
                    positions.push(v as u32);
                    if positions.len() == 1 || v as u32 > mx {
                        mx = v as u32;
                    }
                    assert(positions@.drop_last() =~= old_ps);
                },
                Err(e) => {
                    let mut m = concat3("invalid BITS positions in '", raw, "': ");
                    m.append(e.description());
                    proof {
                        lemma_nonempty_pieces_prefix(toks, (k + 1) as nat);
                        lemma_bit_positions_prefix_err(
                            nonempty_pieces(toks),
                            pieces.len(),
                        );
                    }
                    return Err(m);
                },
            }
        } else {
            assert(tok.len() == 0);
        }
        k = k + 1;
    }
    assert(toks.take(k as int) =~= toks);
    if positions.len() == 0 {
        return Ok(Vec::new());
    }
    if mx > MAX_BIT_POSITION {
        let mut m = text("BITS position ");
        push_dec(&mut m, mx as u64);
        m.append(" exceeds maximum 65535");
        return Err(m);
    }
    proof {
        lemma_seq_max(positions@);
    }
    let bytes_needed: usize = (mx / 8) as usize + 1;
    let mut out: Vec<u8> = Vec::new();
    let mut z: usize = 0;
    while z < bytes_needed
        invariant
            0 <= z <= bytes_needed,
            out@ == Seq::new(z as nat, |i: int| 0u8),
        decreases bytes_needed - z,
    {
        out.push(0u8);
        z = z + 1;
        assert(out@ =~= Seq::new(z as nat, |i: int| 0u8));
    }
    let ghost zeros = out@;
    let mut j: usize = 0;
    assert(positions@.take(0) =~= Seq::<u32>::empty());
    while j < positions.len()
        invariant
            0 <= j <= positions.len(),
            zeros.len() == bytes_needed,
            bytes_needed == (mx / 8) as usize + 1,
            forall|i: int| 0 <= i < positions@.len() ==> positions@[i] <= mx,
            out@ == set_bits(zeros, positions@.take(j as int)),
        decreases positions.len() - j,
    {
        let p = positions[j];
        proof {
            lemma_set_bits_len(zeros, positions@.take(j as int));
            assert(positions@.take(j + 1).drop_last() =~= positions@.take(j as int));
            assert(p / 8 <= mx / 8);
        }
        let idx: usize = (p / 8) as usize;
        let bit: u8 = (7 - (p % 8)) as u8;
        let cur = out[idx];
        out.set(idx, cur | (1u8 << bit));
        j = j + 1;
    }
    assert(positions@.take(j as int) =~= positions@);
    Ok(out)
}

/// The non-empty pieces of a prefix are a prefix of the non-empty pieces.
proof fn lemma_nonempty_pieces_prefix(toks: Seq<Seq<char>>, k: nat)
    requires
        k <= toks.len(),
    ensures
        nonempty_pieces(toks.take(k as int)).len() <= nonempty_pieces(toks).len(),
        nonempty_pieces(toks).take(nonempty_pieces(toks.take(k as int)).len() as int)
            == nonempty_pieces(toks.take(k as int)),
    decreases toks.len(),
{
    if k < toks.len() {
        assert(toks.drop_last().take(k as int) =~= toks.take(k as int));
        lemma_nonempty_pieces_prefix(toks.drop_last(), k);
        let a = nonempty_pieces(toks.take(k as int));
        let b = nonempty_pieces(toks.drop_last());
        if toks.last().len() != 0 {
            assert(nonempty_pieces(toks).take(a.len() as int) =~= b.take(a.len() as int));
        }
    } else {
        assert(toks.take(k as int) =~= toks);
        assert(nonempty_pieces(toks).take(nonempty_pieces(toks).len() as int) =~= nonempty_pieces(toks));
    }
}

// ---------------------------------------------------------------------
// Typed values
// ---------------------------------------------------------------------

/// Message for a number that does not parse.
pub open spec fn number_detail(what: Seq<char>, raw: Seq<char>, k: IntErrorKind) -> Seq<char> {
    "expected "@ + what + ", got '"@ + raw + "': "@ + k.spec_description()
}

/// What the type letter `letter` and the value text `raw` denote.
pub open spec fn spec_parse_typed_value(letter: char, raw: Seq<char>) -> Result<
    ValueSpec,
    ParseErrorSpec,
> {
    if letter == 'i' {
        match parse_signed(raw, i32::MAX as nat, 0x8000_0000) {
            Ok(v) => Ok(ValueSpec::Integer(v)),
            Err(k) => Err(
                ParseErrorSpec::BadValue(letter, number_detail("signed 32-bit decimal"@, raw, k)),
            ),
        }
    } else if letter == 'u' || letter == 't' {
        match parse_unsigned(raw, u32::MAX as nat) {
            Ok(v) => Ok(
                if letter == 'u' {
                    ValueSpec::Unsigned32(v)
                } else {
                    ValueSpec::TimeTicks(v)
                },
            ),
            Err(k) => Err(
                ParseErrorSpec::BadValue(letter, number_detail("unsigned 32-bit decimal"@, raw, k)),
            ),
        }
    } else if letter == 'a' {
        match spec_parse_ipv4(raw) {
            Some(ip) => Ok(ValueSpec::IpAddress(ip)),
            None => Err(
                ParseErrorSpec::BadValue(
                    letter,
                    "expected dotted-quad IPv4, got '"@ + raw + "': invalid IPv4 address syntax"@,
                ),
            ),
        }
    } else if letter == 'o' {
        match spec_parse_oid(raw) {
            Ok(arcs) => Ok(ValueSpec::ObjectId(arcs)),
            Err(d) => Err(ParseErrorSpec::BadValue(letter, d)),
        }
    } else if letter == 's' {
        Ok(ValueSpec::OctetString(encode_utf8(raw)))
    } else if letter == 'x' {
        match spec_parse_hex(raw) {
            Ok(b) => Ok(ValueSpec::OctetString(b)),
            Err(d) => Err(ParseErrorSpec::BadValue(letter, d)),
        }
    } else if letter == 'n' {
        Ok(ValueSpec::Null)
    } else if letter == 'b' {
        match spec_parse_bits(raw) {
            Ok(b) => Ok(ValueSpec::Bits(b)),
            Err(d) => Err(ParseErrorSpec::BadValue(letter, d)),
        }
    } else if letter == 'U' {
        match parse_unsigned(raw, u64::MAX as nat) {
            Ok(v) => Ok(ValueSpec::Counter64(v)),
            Err(k) => Err(
                ParseErrorSpec::BadValue(letter, number_detail("unsigned 64-bit decimal"@, raw, k)),
            ),
        }
    } else {
        Err(ParseErrorSpec::UnknownLetter(letter))
    }
}

fn number_error(letter: char, what: &str, raw: &str, k: IntErrorKind) -> (r: ParseError)
    ensures
        r@ == ParseErrorSpec::BadValue(letter, number_detail(what@, raw@, k)),
{
    let mut d = text("expected ");
    d.append(what);
    d.append(", got '");
    d.append(raw);
    d.append("': ");
    d.append(k.description());
    assert(d@ =~= number_detail(what@, raw@, k));
    ParseError::BadValue { letter, detail: d }
}

/// Parses `(letter, raw)` into a typed var-bind value. Letters: `i`
/// INTEGER, `u` Unsigned32, `t` TimeTicks, `a` IpAddress, `o` OBJECT
/// IDENTIFIER, `s` text OCTET STRING, `x` hex OCTET STRING, `n` NULL, `b`
/// BITS, `U` Counter64.
pub fn parse_typed_value(letter: char, raw: &str) -> (r: Result<VarBindValue, ParseError>)
    ensures
        r matches Ok(v) ==> spec_parse_typed_value(letter, raw@) == Ok::<ValueSpec, ParseErrorSpec>(
            v@,
        ),
        r matches Err(e) ==> spec_parse_typed_value(letter, raw@) == Err::<
            ValueSpec,
            ParseErrorSpec,
        >(e@),
{
    if letter == 'i' {
        match crate::lex::parse_i32(raw) {
            Ok(v) => Ok(VarBindValue::Integer(v)),
            Err(k) => Err(number_error(letter, "signed 32-bit decimal", raw, k)),
        }
    } else if letter == 'u' || letter == 't' {
        match crate::lex::parse_u32(raw) {
            Ok(v) => Ok(
                if letter == 'u' {
                    VarBindValue::Unsigned32(v)
                } else {
                    VarBindValue::TimeTicks(v)
                },
            ),
            Err(k) => Err(number_error(letter, "unsigned 32-bit decimal", raw, k)),
        }
    } else if letter == 'a' {
        match parse_ipv4(raw) {
            Some(ip) => Ok(VarBindValue::IpAddress(ip)),
            None => {
                let mut d = text("expected dotted-quad IPv4, got '");
                d.append(raw);
                d.append("': invalid IPv4 address syntax");
                Err(ParseError::BadValue { letter, detail: d })
            },
        }
    } else if letter == 'o' {
        match parse_oid(raw) {
            Ok(arcs) => Ok(VarBindValue::ObjectId(arcs)),
            Err(d) => Err(ParseError::BadValue { letter, detail: d }),
        }
    } else if letter == 's' {
        Ok(VarBindValue::OctetString(raw.as_bytes_vec()))
    } else if letter == 'x' {
        match parse_hex_string(raw) {
            Ok(b) => Ok(VarBindValue::OctetString(b)),
            Err(d) => Err(ParseError::BadValue { letter, detail: d }),
        }
    } else if letter == 'n' {
        Ok(VarBindValue::Null)
    } else if letter == 'b' {
        match parse_bits(raw) {
            Ok(b) => Ok(VarBindValue::Bits(b)),
            Err(d) => Err(ParseError::BadValue { letter, detail: d }),
        }
    } else if letter == 'U' {
        match crate::lex::parse_u64(raw) {
            Ok(v) => Ok(VarBindValue::Counter64(v)),
            Err(k) => Err(number_error(letter, "unsigned 64-bit decimal", raw, k)),
        }
    } else {
        Err(ParseError::UnknownLetter { letter })
    }
}

} // verus!
