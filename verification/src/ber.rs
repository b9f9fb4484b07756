//! Basic Encoding Rules (X.690) for the handful of ASN.1 forms that SNMP
//! messages are made of: definite-length TLVs, two's-complement INTEGER
//! contents, base-128 OBJECT IDENTIFIER contents.
//!
//! Every encoder appends to a byte vector and is specified by a spec
//! function over `Seq<u8>`.

use vstd::prelude::*;

verus! {

/// Universal tag numbers and SNMP application / context tags used here.
pub const TAG_INTEGER: u8 = 0x02;
pub const TAG_OCTET_STRING: u8 = 0x04;
pub const TAG_NULL: u8 = 0x05;
pub const TAG_OID: u8 = 0x06;
pub const TAG_SEQUENCE: u8 = 0x30;
pub const TAG_IP_ADDRESS: u8 = 0x40;
pub const TAG_GAUGE: u8 = 0x42;
pub const TAG_TIMETICKS: u8 = 0x43;
pub const TAG_COUNTER64: u8 = 0x46;
pub const TAG_V1_TRAP: u8 = 0xA4;
pub const TAG_V2_TRAP: u8 = 0xA7;

/// Minimal big-endian base-256 digits of `n` (at least one octet).
pub open spec fn be_min(n: nat) -> Seq<u8>
    decreases n,
{
    if n < 256 {
        seq![n as u8]
    } else {
        be_min(n / 256).push((n % 256) as u8)
    }
}

/// Definite-form length octets (X.690 §8.1.3): short form below 128,
/// otherwise the long form with the minimal number of length octets.
pub open spec fn length_octets(n: nat) -> Seq<u8> {
    if n < 128 {
        seq![n as u8]
    } else {
        seq![(0x80 + be_min(n).len()) as u8] + be_min(n)
    }
}

/// A primitive or constructed value with a one-octet identifier.
pub open spec fn tlv(tag: u8, content: Seq<u8>) -> Seq<u8> {
    seq![tag] + length_octets(content.len()) + content
}

/// Magnitude used to show that `int_content` terminates.
pub open spec fn abs(v: int) -> nat {
    if v < 0 { (-v) as nat } else { v as nat }
}

/// Contents octets of an INTEGER (X.690 §8.3): the shortest two's-complement
/// big-endian representation of `v`.
pub open spec fn int_content(v: int) -> Seq<u8>
    decreases abs(v),
{
    if -128 <= v < 128 {
        seq![(if v >= 0 { v } else { v + 256 }) as u8]
    } else {
        int_content(v / 256).push((v % 256) as u8)
    }
}

/// An INTEGER-like value (universal or application tag) holding `v`.
pub open spec fn enc_int(tag: u8, v: int) -> Seq<u8> {
    tlv(tag, int_content(v))
}

/// The 7-bit groups of `n` with the continuation bit set on each, for the
/// non-final groups of a base-128 number.
pub open spec fn base128_lead(n: nat) -> Seq<u8>
    decreases n,
{
    if n == 0 {
        seq![]
    } else {
        base128_lead(n / 128).push((n % 128 + 128) as u8)
    }
}

/// Base-128 encoding of one OBJECT IDENTIFIER subidentifier (X.690 §8.19.2):
/// most significant group first, bit 8 set on every octet but the last.
pub open spec fn base128(n: nat) -> Seq<u8> {
    base128_lead(n / 128).push((n % 128) as u8)
}

/// Subidentifiers after the first two arcs.
pub open spec fn arcs_content(arcs: Seq<u32>) -> Seq<u8>
    decreases arcs.len(),
{
    if arcs.len() == 0 {
        seq![]
    } else {
        arcs_content(arcs.drop_last()) + base128(arcs.last() as nat)
    }
}

/// An arc list that BER can express: at least two arcs, first arc 0, 1 or 2.
pub open spec fn oid_encodable(arcs: Seq<u32>) -> bool {
    arcs.len() >= 2 && arcs[0] <= 2
}

/// Contents octets of an OBJECT IDENTIFIER: `40 * arc0 + arc1`, then every
/// further arc, each in base 128.
pub open spec fn oid_content(arcs: Seq<u32>) -> Seq<u8> {
    base128((40 * arcs[0] + arcs[1]) as nat) + arcs_content(arcs.subrange(2, arcs.len() as int))
}

pub open spec fn enc_oid(arcs: Seq<u32>) -> Seq<u8> {
    tlv(TAG_OID, oid_content(arcs))
}

pub open spec fn enc_octets(tag: u8, bytes: Seq<u8>) -> Seq<u8> {
    tlv(tag, bytes)
}

pub open spec fn enc_null() -> Seq<u8> {
    seq![TAG_NULL, 0u8]
}

// ---- lemmas ----

/// The two's-complement contents of a negative value are the bitwise
/// complement of the contents of its one's-complement magnitude.
proof fn lemma_int_content_neg(v: int)
    requires
        v < 0,
    ensures
        int_content(v) == int_content(-v - 1).map_values(|b: u8| (255 - b) as u8),
    decreases abs(v),
{
    let w = -v - 1;
    if v >= -128 {
        assert(int_content(w) == seq![w as u8]);
        assert(int_content(v) =~= int_content(w).map_values(|b: u8| (255 - b) as u8));
    } else {
        let q = v / 256;
        let r = v % 256;
        assert(w / 256 == -q - 1 && w % 256 == 255 - r) by (nonlinear_arith)
            requires
                w == -v - 1,
                q == v / 256,
                r == v % 256,
        ;
        lemma_int_content_neg(q);
        assert(int_content(v) =~= int_content(w).map_values(|b: u8| (255 - b) as u8));
    }
}

// ---- exec encoders ----

/// Appends the minimal big-endian digits of `n`.
fn push_be_min(out: &mut Vec<u8>, n: u64)
    ensures
        final(out)@ == old(out)@ + be_min(n as nat),
    decreases n,
{
    if n < 256 {
        out.push(n as u8);
        assert(final(out)@ =~= old(out)@ + be_min(n as nat));
    } else {
        push_be_min(out, n / 256);
        out.push((n % 256) as u8);
        assert(final(out)@ =~= old(out)@ + be_min(n as nat));
    }
}

pub proof fn lemma_be_min_smaller(n: nat, k: nat)
    requires
        1 <= k <= 8,
        n < pow256(k),
    ensures
        be_min(n).len() <= k,
    decreases k,
{
    if n >= 256 {
        assert(pow256(1) == 256 * pow256(0));
        assert(k >= 2);
        assert(n / 256 < pow256((k - 1) as nat)) by (nonlinear_arith)
            requires
                n < pow256(k),
                pow256(k) == 256 * pow256((k - 1) as nat),
        ;
        lemma_be_min_smaller(n / 256, (k - 1) as nat);
    }
}

pub open spec fn pow256(k: nat) -> nat
    decreases k,
{
    if k == 0 { 1 } else { 256 * pow256((k - 1) as nat) }
}

/// Appends the definite-form length octets for a contents length `n`.
pub fn push_length(out: &mut Vec<u8>, n: usize)
    ensures
        final(out)@ == old(out)@ + length_octets(n as nat),
{
    if n < 128 {
        out.push(n as u8);
        assert(final(out)@ =~= old(out)@ + length_octets(n as nat));
    } else {
        let ghost before = out@;
        let mut digits: Vec<u8> = Vec::new();
        push_be_min(&mut digits, n as u64);
        proof {
            assert(digits@ =~= be_min(n as nat));
            reveal_with_fuel(pow256, 9);
            assert(pow256(8) == 0x1_0000_0000_0000_0000);
            lemma_be_min_smaller(n as nat, 8);
        }
        out.push((0x80 + digits.len()) as u8);
        let mut i: usize = 0;
        while i < digits.len()
            invariant
                0 <= i <= digits.len(),
                out@ == before + seq![(0x80 + be_min(n as nat).len()) as u8] + digits@.subrange(0, i as int),
            decreases digits.len() - i,
        {
            out.push(digits[i]);
            i = i + 1;
            assert(out@ =~= before + seq![(0x80 + be_min(n as nat).len()) as u8] + digits@.subrange(0, i as int));
        }
        assert(digits@.subrange(0, digits@.len() as int) =~= digits@);
        assert(final(out)@ =~= old(out)@ + length_octets(n as nat));
    }
}

/// Appends every byte of `bytes`.
pub fn push_all(out: &mut Vec<u8>, bytes: &[u8])
    ensures
        final(out)@ == old(out)@ + bytes@,
{
    let ghost before = out@;
    let mut i: usize = 0;
    while i < bytes.len()
        invariant
            0 <= i <= bytes.len(),
            out@ == before + bytes@.subrange(0, i as int),
        decreases bytes.len() - i,
    {
        out.push(bytes[i]);
        i = i + 1;
        assert(out@ =~= before + bytes@.subrange(0, i as int));
    }
    assert(bytes@.subrange(0, bytes@.len() as int) =~= bytes@);
}

/// Appends a TLV with the given identifier octet and contents.
pub fn push_tlv(out: &mut Vec<u8>, tag: u8, content: &[u8])
    ensures
        final(out)@ == old(out)@ + tlv(tag, content@),
{
    out.push(tag);
    push_length(out, content.len());
    push_all(out, content);
    assert(final(out)@ =~= old(out)@ + tlv(tag, content@));
}

/// A TLV holding `content`, as a fresh vector.
pub fn wrap_tlv(tag: u8, content: &[u8]) -> (r: Vec<u8>)
    ensures
        r@ == tlv(tag, content@),
{
    let mut out: Vec<u8> = Vec::new();
    push_tlv(&mut out, tag, content);
    assert(out@ =~= tlv(tag, content@));
    out
}

/// Appends the INTEGER contents of a non-negative value.
fn push_int_content_nonneg(out: &mut Vec<u8>, w: u64)
    ensures
        final(out)@ == old(out)@ + int_content(w as int),
    decreases w,
{
    if w < 128 {
        out.push(w as u8);
        assert(final(out)@ =~= old(out)@ + int_content(w as int));
    } else {
        push_int_content_nonneg(out, w / 256);
        out.push((w % 256) as u8);
        assert(final(out)@ =~= old(out)@ + int_content(w as int));
    }
}

/// Appends the bitwise complement of the INTEGER contents of `w`.
fn push_int_content_inverted(out: &mut Vec<u8>, w: u64)
    ensures
        final(out)@ == old(out)@ + int_content(w as int).map_values(|b: u8| (255 - b) as u8),
    decreases w,
{
    if w < 128 {
        out.push(255 - (w as u8));
        assert(final(out)@ =~= old(out)@ + int_content(w as int).map_values(
            |b: u8| (255 - b) as u8,
        ));
    } else {
        push_int_content_inverted(out, w / 256);
        out.push(255 - ((w % 256) as u8));
        assert(int_content(w as int) == int_content((w / 256) as int).push((w % 256) as u8));
        assert(final(out)@ =~= old(out)@ + int_content(w as int).map_values(
            |b: u8| (255 - b) as u8,
        ));
    }
}

/// Appends a TLV holding the INTEGER contents of the signed `v`.
pub fn push_int(out: &mut Vec<u8>, tag: u8, v: i64)
    ensures
        final(out)@ == old(out)@ + enc_int(tag, v as int),
{
    let mut content: Vec<u8> = Vec::new();
    if v >= 0 {
        push_int_content_nonneg(&mut content, v as u64);
    } else {
        let w: u64 = (-(v + 1)) as u64;
        push_int_content_inverted(&mut content, w);
        proof {
            lemma_int_content_neg(v as int);
        }
    }
    assert(content@ =~= int_content(v as int));
    push_tlv(out, tag, content.as_slice());
}

/// Appends a TLV holding the INTEGER contents of the unsigned `v`.
pub fn push_uint(out: &mut Vec<u8>, tag: u8, v: u64)
    ensures
        final(out)@ == old(out)@ + enc_int(tag, v as int),
{
    let mut content: Vec<u8> = Vec::new();
    push_int_content_nonneg(&mut content, v);
    assert(content@ =~= int_content(v as int));
    push_tlv(out, tag, content.as_slice());
}

/// Appends the continuation groups of `n` (all octets have bit 8 set).
fn push_base128_lead(out: &mut Vec<u8>, n: u64)
    ensures
        final(out)@ == old(out)@ + base128_lead(n as nat),
    decreases n,
{
    if n == 0 {
        assert(final(out)@ =~= old(out)@ + base128_lead(n as nat));
    } else {
        push_base128_lead(out, n / 128);
        out.push((n % 128 + 128) as u8);
        assert(final(out)@ =~= old(out)@ + base128_lead(n as nat));
    }
}

/// Appends one base-128 subidentifier.
fn push_base128(out: &mut Vec<u8>, n: u64)
    ensures
        final(out)@ == old(out)@ + base128(n as nat),
{
    push_base128_lead(out, n / 128);
    out.push((n % 128) as u8);
    assert(final(out)@ =~= old(out)@ + base128(n as nat));
}

/// Appends an OBJECT IDENTIFIER TLV for `arcs`.
pub fn push_oid(out: &mut Vec<u8>, arcs: &[u32])
    requires
        oid_encodable(arcs@),
    ensures
        final(out)@ == old(out)@ + enc_oid(arcs@),
{
    let mut content: Vec<u8> = Vec::new();
    let first: u64 = 40 * (arcs[0] as u64) + (arcs[1] as u64);
    push_base128(&mut content, first);
    let ghost head = content@;
    let mut i: usize = 2;
    while i < arcs.len()
        invariant
            2 <= i <= arcs.len(),
            arcs.len() >= 2,
            content@ == head + arcs_content(arcs@.subrange(2, i as int)),
        decreases arcs.len() - i,
    {
        push_base128(&mut content, arcs[i] as u64);
        proof {
            let s = arcs@.subrange(2, i + 1);
            assert(s.drop_last() =~= arcs@.subrange(2, i as int));
            assert(s.last() == arcs@[i as int]);
        }
        i = i + 1;
        assert(content@ =~= head + arcs_content(arcs@.subrange(2, i as int)));
    }
    assert(content@ =~= oid_content(arcs@));
    push_tlv(out, TAG_OID, content.as_slice());
}

/// Appends a NULL.
pub fn push_null(out: &mut Vec<u8>)
    ensures
        final(out)@ == old(out)@ + enc_null(),
{
    out.push(TAG_NULL);
    out.push(0u8);
    assert(final(out)@ =~= old(out)@ + enc_null());
}

/// Whether `arcs` can be encoded as an OBJECT IDENTIFIER.
pub fn oid_is_encodable(arcs: &[u32]) -> (r: bool)
    ensures
        r == oid_encodable(arcs@),
{
    arcs.len() >= 2 && arcs[0] <= 2
}

} // verus!
