//! Reading BER back (X.690): definite-length TLVs, INTEGER and OBJECT
//! IDENTIFIER contents, var-binds and the community-based trap message.
//!
//! Everything here is a spec function over bytes. The lemmas show that
//! what the encoders in `ber` and `pdu` write reads back as what was
//! written, which is what lets an agent take a message apart.

use vstd::prelude::*;
use crate::ber::{
    arcs_content, base128, base128_lead, be_min, enc_int, enc_null, enc_oid, int_content,
    length_octets, oid_content, oid_encodable, pow256, tlv, lemma_be_min_smaller, TAG_COUNTER64,
    TAG_GAUGE, TAG_INTEGER, TAG_IP_ADDRESS, TAG_NULL, TAG_OCTET_STRING, TAG_OID, TAG_SEQUENCE,
    TAG_TIMETICKS, TAG_V2_TRAP,
};
use crate::net::Ipv4Addr;
use crate::pdu::{
    binding_enc, binding_list_enc, binding_oids, bindings_content, bindings_oids,
    lemma_bindings_content_append, v2c_bindings, v2c_message, v2c_oids, value_enc, BindingSpec,
    V2cTrapSpec,
};
use crate::varbind::ValueSpec;

verus! {

/// The largest content length whose length octets the reader takes in:
/// at most eight length octets, so anything a `Vec` can hold.
pub open spec fn length_limit() -> nat {
    pow256(8)
}

pub proof fn lemma_length_limit()
    ensures
        length_limit() == 0x1_0000_0000_0000_0000,
        usize::MAX < length_limit(),
{
    reveal_with_fuel(pow256, 9);
    assert(pow256(8) == 0x1_0000_0000_0000_0000);
}

/// The unsigned big-endian value of `s`.
pub open spec fn be_value(s: Seq<u8>) -> nat
    decreases s.len(),
{
    if s.len() == 0 {
        0
    } else {
        be_value(s.drop_last()) * 256 + s.last() as nat
    }
}

/// Length octets at the front of `s`: the length they give and how many
/// octets they take.
pub open spec fn read_length(s: Seq<u8>) -> Option<(nat, nat)> {
    if s.len() == 0 {
        None
    } else if s[0] < 128 {
        Some((s[0] as nat, 1))
    } else {
        let k = (s[0] - 128) as nat;
        if 1 <= k && k + 1 <= s.len() {
            Some((be_value(s.subrange(1, (k + 1) as int)), k + 1))
        } else {
            None
        }
    }
}

/// One TLV with a one-octet identifier at the front of `s`: its tag, its
/// contents and what follows it.
#[verifier::opaque]
pub open spec fn read_tlv(s: Seq<u8>) -> Option<(u8, Seq<u8>, Seq<u8>)> {
    if s.len() == 0 {
        None
    } else {
        match read_length(s.drop_first()) {
            None => None,
            Some((n, k)) => if 1 + k + n <= s.len() {
                Some((s[0], s.subrange((1 + k) as int, (1 + k + n) as int), s.subrange((1 + k + n) as int, s.len() as int)))
            } else {
                None
            },
        }
    }
}

proof fn lemma_be_min_len(n: nat)
    ensures
        be_min(n).len() >= 1,
    decreases n,
{
    if n >= 256 {
        lemma_be_min_len(n / 256);
    }
}

proof fn lemma_be_value_min(n: nat)
    ensures
        be_value(be_min(n)) == n,
    decreases n,
{
    if n < 256 {
        assert(be_min(n).drop_last() =~= Seq::<u8>::empty());
        assert(be_value(Seq::<u8>::empty()) == 0);
    } else {
        lemma_be_value_min(n / 256);
        assert(be_min(n).drop_last() =~= be_min(n / 256));
        assert(be_min(n).last() == (n % 256) as u8);
        assert((n / 256) * 256 + n % 256 == n) by (nonlinear_arith);
    }
}

/// Length octets read back as the length they encode.
pub proof fn lemma_read_length(n: nat, rest: Seq<u8>)
    requires
        n < length_limit(),
    ensures
        read_length(length_octets(n) + rest) == Some((n, length_octets(n).len())),
{
    let s = length_octets(n) + rest;
    if n >= 128 {
        lemma_be_min_len(n);
        lemma_be_min_smaller(n, 8);
        let l = be_min(n).len();
        assert(s[0] == 128 + l);
        assert(s.subrange(1, (l + 1) as int) =~= be_min(n));
        lemma_be_value_min(n);
    }
}

/// A TLV reads back as its tag and contents, with what follows untouched.
pub proof fn lemma_read_tlv(tag: u8, c: Seq<u8>, rest: Seq<u8>)
    requires
        c.len() < length_limit(),
    ensures
        read_tlv(tlv(tag, c) + rest) == Some((tag, c, rest)),
{
    reveal(read_tlv);
    let lo = length_octets(c.len());
    let s = tlv(tag, c) + rest;
    assert(s.drop_first() =~= lo + (c + rest));
    lemma_read_length(c.len(), c + rest);
    let k = lo.len();
    assert(s.subrange((1 + k) as int, (1 + k + c.len()) as int) =~= c);
    assert(s.subrange((1 + k + c.len()) as int, s.len() as int) =~= rest);
}

// ---------------------------------------------------------------------
// INTEGER
// ---------------------------------------------------------------------

/// The two's-complement big-endian value of INTEGER contents.
pub open spec fn int_value(c: Seq<u8>) -> int
    decreases c.len(),
{
    if c.len() == 0 {
        0
    } else if c.len() == 1 {
        if c[0] < 128 {
            c[0] as int
        } else {
            c[0] as int - 256
        }
    } else {
        int_value(c.drop_last()) * 256 + c.last() as int
    }
}

/// An INTEGER-like TLV of tag `tag` at the front of `s`: its value and
/// what follows.
#[verifier::opaque]
pub open spec fn read_int(s: Seq<u8>, tag: u8) -> Option<(int, Seq<u8>)> {
    match read_tlv(s) {
        Some((t, c, rest)) => if t == tag && c.len() >= 1 {
            Some((int_value(c), rest))
        } else {
            None
        },
        None => None,
    }
}

/// INTEGER contents read back as the value they encode.
pub proof fn lemma_int_value(v: int)
    ensures
        int_content(v).len() >= 1,
        int_value(int_content(v)) == v,
    decreases crate::ber::abs(v),
{
    if -128 <= v < 128 {
    } else {
        lemma_int_value(v / 256);
        assert(int_content(v).drop_last() =~= int_content(v / 256));
        assert(int_content(v).last() == (v % 256) as u8);
        assert((v / 256) * 256 + v % 256 == v) by (nonlinear_arith);
    }
}

pub proof fn lemma_read_int(tag: u8, v: int, rest: Seq<u8>)
    requires
        (enc_int(tag, v) + rest).len() < length_limit(),
    ensures
        read_int(enc_int(tag, v) + rest, tag) == Some((v, rest)),
{
    reveal(read_int);
    lemma_int_value(v);
    lemma_read_tlv(tag, int_content(v), rest);
}

// ---------------------------------------------------------------------
// OBJECT IDENTIFIER
// ---------------------------------------------------------------------

pub open spec fn pow128(k: nat) -> nat
    decreases k,
{
    if k == 0 { 1 } else { 128 * pow128((k - 1) as nat) }
}

/// One base-128 subidentifier at the front of `s`, its leading groups
/// already worth `acc`: the value and how many octets it takes.
pub open spec fn read_subid(s: Seq<u8>, acc: nat) -> Option<(nat, nat)>
    decreases s.len(),
{
    if s.len() == 0 {
        None
    } else if s[0] < 128 {
        Some((acc * 128 + s[0] as nat, 1))
    } else {
        match read_subid(s.drop_first(), acc * 128 + (s[0] - 128) as nat) {
            Some((v, k)) => Some((v, k + 1)),
            None => None,
        }
    }
}

/// All the subidentifiers of OBJECT IDENTIFIER contents, in order.
pub open spec fn read_subids(s: Seq<u8>) -> Option<Seq<nat>>
    decreases s.len(),
{
    if s.len() == 0 {
        Some(Seq::<nat>::empty())
    } else {
        match read_subid(s, 0) {
            Some((v, k)) => if 1 <= k <= s.len() {
                match read_subids(s.subrange(k as int, s.len() as int)) {
                    Some(r) => Some(seq![v] + r),
                    None => None,
                }
            } else {
                None
            },
            None => None,
        }
    }
}

/// The arcs that subidentifiers stand for (X.690 §8.19.4): the first
/// subidentifier is `40 * arc0 + arc1`, with `arc0` 0 or 1 below 80 and 2
/// from 80 on. Every arc must fit in 32 bits.
pub open spec fn arcs_from_subids(ids: Seq<nat>) -> Option<Seq<u32>> {
    if ids.len() == 0 {
        None
    } else {
        let x = ids[0];
        let a0: nat = if x < 40 { 0 } else if x < 80 { 1 } else { 2 };
        let all = seq![a0, (x - 40 * a0) as nat] + ids.drop_first();
        if forall|i: int| 0 <= i < all.len() ==> #[trigger] all[i] <= u32::MAX {
            Some(all.map_values(|a: nat| a as u32))
        } else {
            None
        }
    }
}

pub open spec fn read_oid_content(c: Seq<u8>) -> Option<Seq<u32>> {
    match read_subids(c) {
        Some(ids) => arcs_from_subids(ids),
        None => None,
    }
}

/// An arc list that reads back as itself: BER-encodable, and a second arc
/// below 40 unless the first is 2 (X.690 §8.19.4).
pub open spec fn oid_canonical(arcs: Seq<u32>) -> bool {
    oid_encodable(arcs) && (arcs[0] == 2 || arcs[1] < 40)
}

proof fn lemma_base128_lead_len(m: nat)
    ensures
        m > 0 ==> base128_lead(m).len() >= 1,
    decreases m,
{
}

proof fn lemma_read_subid_lead(m: nat, acc: nat, tail: Seq<u8>)
    ensures
        read_subid(base128_lead(m) + tail, acc) == (match read_subid(
            tail,
            acc * pow128(base128_lead(m).len()) + m,
        ) {
            Some((v, k)) => Some((v, k + base128_lead(m).len())),
            None => None,
        }),
    decreases m,
{
    if m == 0 {
        assert(base128_lead(m) + tail =~= tail);
        assert(pow128(0) == 1);
        assert(acc * pow128(0) == acc) by (nonlinear_arith)
            requires
                pow128(0) == 1,
        ;
    } else {
        let lead = base128_lead(m / 128);
        let b = (m % 128 + 128) as u8;
        assert(base128_lead(m) == lead.push(b));
        assert(base128_lead(m) + tail =~= lead + (seq![b] + tail));
        lemma_read_subid_lead(m / 128, acc, seq![b] + tail);
        let a = acc * pow128(lead.len()) + m / 128;
        assert((seq![b] + tail).drop_first() =~= tail);
        assert(b - 128 == m % 128);
        assert(pow128(lead.len() + 1) == 128 * pow128(lead.len()));
        assert(a * 128 + m % 128 == acc * pow128(lead.len() + 1) + m) by (nonlinear_arith)
            requires
                a == acc * pow128(lead.len()) + m / 128,
                pow128(lead.len() + 1) == 128 * pow128(lead.len()),
        ;
        let st = seq![b] + tail;
        assert(st[0] == b);
        assert(read_subid(st, a) == (match read_subid(tail, a * 128 + m % 128) {
            Some((v, k)) => Some((v, k + 1)),
            None => None,
        }));
        assert(base128_lead(m).len() == lead.len() + 1);
        let x = acc * pow128(base128_lead(m).len()) + m;
        assert(a * 128 + m % 128 == x);
        match read_subid(tail, x) {
            Some((v, k)) => {
                assert(read_subid(st, a) == Some((v, k + 1)));
                assert(read_subid(base128_lead(m) + tail, acc) == Some((v, k + 1 + lead.len())));
            },
            None => {},
        }
    }
}

proof fn lemma_read_subid_base128(n: nat, rest: Seq<u8>)
    ensures
        read_subid(base128(n) + rest, 0) == Some((n, base128(n).len())),
        base128(n).len() >= 1,
{
    let lead = base128_lead(n / 128);
    let x = (n % 128) as u8;
    assert(base128(n) + rest =~= lead + (seq![x] + rest));
    lemma_read_subid_lead(n / 128, 0, seq![x] + rest);
    assert(0 * pow128(lead.len()) == 0) by (nonlinear_arith);
    assert((n / 128) * 128 + n % 128 == n) by (nonlinear_arith);
}

proof fn lemma_read_subids_base128(n: nat, rest: Seq<u8>)
    ensures
        read_subids(base128(n) + rest) == (match read_subids(rest) {
            Some(r) => Some(seq![n] + r),
            None => None,
        }),
{
    lemma_read_subid_base128(n, rest);
    let s = base128(n) + rest;
    assert(s.subrange(base128(n).len() as int, s.len() as int) =~= rest);
}

proof fn lemma_arcs_content_front(arcs: Seq<u32>)
    requires
        arcs.len() >= 1,
    ensures
        arcs_content(arcs) == base128(arcs[0] as nat) + arcs_content(arcs.drop_first()),
    decreases arcs.len(),
{
    if arcs.len() == 1 {
        assert(arcs.drop_last() =~= Seq::<u32>::empty());
        assert(arcs.drop_first() =~= Seq::<u32>::empty());
        assert(arcs_content(Seq::<u32>::empty()) =~= Seq::<u8>::empty());
        assert(arcs_content(arcs) =~= base128(arcs[0] as nat));
    } else {
        let dl = arcs.drop_last();
        lemma_arcs_content_front(dl);
        assert(arcs.drop_first().drop_last() =~= dl.drop_first());
        assert(arcs.drop_first().last() == arcs.last());
        assert(dl[0] == arcs[0]);
        assert(arcs_content(arcs) =~= base128(arcs[0] as nat) + arcs_content(arcs.drop_first()));
    }
}

proof fn lemma_read_arcs(arcs: Seq<u32>)
    ensures
        read_subids(arcs_content(arcs)) == Some(arcs.map_values(|a: u32| a as nat)),
    decreases arcs.len(),
{
    if arcs.len() == 0 {
        assert(arcs_content(arcs) =~= Seq::<u8>::empty());
        assert(arcs.map_values(|a: u32| a as nat) =~= Seq::<nat>::empty());
    } else {
        lemma_arcs_content_front(arcs);
        lemma_read_arcs(arcs.drop_first());
        lemma_read_subids_base128(arcs[0] as nat, arcs_content(arcs.drop_first()));
        assert(seq![arcs[0] as nat] + arcs.drop_first().map_values(|a: u32| a as nat)
            =~= arcs.map_values(|a: u32| a as nat));
    }
}

/// The contents of a canonical OBJECT IDENTIFIER read back as its arcs.
pub proof fn lemma_read_oid_content(arcs: Seq<u32>)
    requires
        oid_canonical(arcs),
    ensures
        read_oid_content(oid_content(arcs)) == Some(arcs),
{
    let tail = arcs.subrange(2, arcs.len() as int);
    let x = (40 * arcs[0] + arcs[1]) as nat;
    lemma_read_arcs(tail);
    lemma_read_subids_base128(x, arcs_content(tail));
    let ids = seq![x] + tail.map_values(|a: u32| a as nat);
    assert(read_subids(oid_content(arcs)) == Some(ids));
    let a0: nat = if x < 40 { 0 } else if x < 80 { 1 } else { 2 };
    assert(a0 == arcs[0]);
    let all = seq![a0, (x - 40 * a0) as nat] + ids.drop_first();
    assert(all =~= arcs.map_values(|a: u32| a as nat));
    assert forall|i: int| 0 <= i < all.len() implies #[trigger] all[i] <= u32::MAX by {
        assert(all[i] == arcs[i] as nat);
    }
    assert(all.map_values(|a: nat| a as u32) =~= arcs);
}

// ---------------------------------------------------------------------
// Var-binds and the v2c trap message
// ---------------------------------------------------------------------

/// What a value is on the wire: BITS travel as an OCTET STRING, so that is
/// what they read back as; every other value reads back as itself.
pub open spec fn on_wire(v: ValueSpec) -> ValueSpec {
    match v {
        ValueSpec::Bits(b) => ValueSpec::OctetString(b),
        _ => v,
    }
}

pub open spec fn wire_bindings(bs: Seq<BindingSpec>) -> Seq<BindingSpec> {
    bs.map_values(|b: BindingSpec| (b.0, on_wire(b.1)))
}

/// A var-bind value at the front of `s`, by its tag.
pub open spec fn read_value(s: Seq<u8>) -> Option<(ValueSpec, Seq<u8>)> {
    match read_tlv(s) {
        None => None,
        Some((tag, c, rest)) => if tag == TAG_INTEGER && c.len() >= 1 {
            Some((ValueSpec::Integer(int_value(c)), rest))
        } else if tag == TAG_GAUGE && c.len() >= 1 && int_value(c) >= 0 {
            Some((ValueSpec::Unsigned32(int_value(c) as nat), rest))
        } else if tag == TAG_TIMETICKS && c.len() >= 1 && int_value(c) >= 0 {
            Some((ValueSpec::TimeTicks(int_value(c) as nat), rest))
        } else if tag == TAG_COUNTER64 && c.len() >= 1 && int_value(c) >= 0 {
            Some((ValueSpec::Counter64(int_value(c) as nat), rest))
        } else if tag == TAG_IP_ADDRESS && c.len() == 4 {
            Some((ValueSpec::IpAddress(Ipv4Addr { a: c[0], b: c[1], c: c[2], d: c[3] }), rest))
        } else if tag == TAG_OID {
            match read_oid_content(c) {
                Some(arcs) => Some((ValueSpec::ObjectId(arcs), rest)),
                None => None,
            }
        } else if tag == TAG_OCTET_STRING {
            Some((ValueSpec::OctetString(c), rest))
        } else if tag == TAG_NULL && c.len() == 0 {
            Some((ValueSpec::Null, rest))
        } else {
            None
        },
    }
}

/// `VarBind ::= SEQUENCE { name, value }` at the front of `s`.
pub open spec fn read_binding(s: Seq<u8>) -> Option<(BindingSpec, Seq<u8>)> {
    match read_tlv(s) {
        Some((t, c, rest)) => if t != TAG_SEQUENCE {
            None
        } else {
            match read_tlv(c) {
                Some((t2, oc, r2)) => if t2 != TAG_OID {
                    None
                } else {
                    match (read_oid_content(oc), read_value(r2)) {
                        (Some(name), Some((v, r3))) => if r3.len() == 0 {
                            Some(((name, v), rest))
                        } else {
                            None
                        },
                        _ => None,
                    }
                },
                None => None,
            }
        },
        None => None,
    }
}

/// The var-binds of `VarBindList` contents, in order.
pub open spec fn read_bindings(s: Seq<u8>) -> Option<Seq<BindingSpec>>
    decreases s.len(),
{
    if s.len() == 0 {
        Some(Seq::<BindingSpec>::empty())
    } else {
        match read_binding(s) {
            Some((b, rest)) => if rest.len() < s.len() {
                match read_bindings(rest) {
                    Some(r) => Some(seq![b] + r),
                    None => None,
                }
            } else {
                None
            },
            None => None,
        }
    }
}

/// The fields of a community-based trap message.
pub struct TrapFields {
    pub version: int,
    pub community: Seq<u8>,
    pub request_id: int,
    pub error_status: int,
    pub error_index: int,
    pub varbinds: Seq<BindingSpec>,
}

/// `PDU ::= SEQUENCE { request-id, error-status, error-index,
/// variable-bindings }` contents.
#[verifier::opaque]
pub open spec fn read_pdu_fields(c: Seq<u8>) -> Option<(int, int, int, Seq<BindingSpec>)> {
    match read_int(c, TAG_INTEGER) {
        Some((rid, r1)) => match read_int(r1, TAG_INTEGER) {
            Some((es, r2)) => match read_int(r2, TAG_INTEGER) {
                Some((ei, r3)) => match read_tlv(r3) {
                    Some((t, list, r4)) => if t == TAG_SEQUENCE && r4.len() == 0 {
                        match read_bindings(list) {
                            Some(vbs) => Some((rid, es, ei, vbs)),
                            None => None,
                        }
                    } else {
                        None
                    },
                    None => None,
                },
                None => None,
            },
            None => None,
        },
        None => None,
    }
}

/// A whole SNMPv2c trap message: `Message ::= SEQUENCE { version,
/// community, data }` with an `SNMPv2-Trap-PDU` as data and nothing after.
pub open spec fn read_v2c_trap(s: Seq<u8>) -> Option<TrapFields> {
    match read_tlv(s) {
        Some((t, body, after)) => if t != TAG_SEQUENCE || after.len() != 0 {
            None
        } else {
            match read_int(body, TAG_INTEGER) {
                Some((version, r1)) => match read_tlv(r1) {
                    Some((t2, community, r2)) => if t2 != TAG_OCTET_STRING {
                        None
                    } else {
                        match read_tlv(r2) {
                            Some((t3, pdu, r3)) => if t3 != TAG_V2_TRAP || r3.len() != 0 {
                                None
                            } else {
                                match read_pdu_fields(pdu) {
                                    Some((rid, es, ei, vbs)) => Some(
                                        TrapFields {
                                            version,
                                            community,
                                            request_id: rid,
                                            error_status: es,
                                            error_index: ei,
                                            varbinds: vbs,
                                        },
                                    ),
                                    None => None,
                                }
                            },
                            None => None,
                        }
                    },
                    None => None,
                },
                None => None,
            }
        },
        None => None,
    }
}

pub proof fn lemma_read_value(v: ValueSpec, rest: Seq<u8>)
    requires
        (value_enc(v) + rest).len() < length_limit(),
        v matches ValueSpec::ObjectId(arcs) ==> oid_canonical(arcs),
    ensures
        read_value(value_enc(v) + rest) == Some((on_wire(v), rest)),
{
    match v {
        ValueSpec::Integer(i) => {
            lemma_int_value(i);
            lemma_read_tlv(TAG_INTEGER, int_content(i), rest);
        },
        ValueSpec::Unsigned32(u) => {
            lemma_int_value(u as int);
            lemma_read_tlv(TAG_GAUGE, int_content(u as int), rest);
        },
        ValueSpec::TimeTicks(u) => {
            lemma_int_value(u as int);
            lemma_read_tlv(TAG_TIMETICKS, int_content(u as int), rest);
        },
        ValueSpec::Counter64(u) => {
            lemma_int_value(u as int);
            lemma_read_tlv(TAG_COUNTER64, int_content(u as int), rest);
        },
        ValueSpec::IpAddress(ip) => {
            lemma_read_tlv(TAG_IP_ADDRESS, ip.spec_octets(), rest);
        },
        ValueSpec::ObjectId(arcs) => {
            lemma_read_tlv(TAG_OID, oid_content(arcs), rest);
            lemma_read_oid_content(arcs);
        },
        ValueSpec::OctetString(b) => {
            lemma_read_tlv(TAG_OCTET_STRING, b, rest);
        },
        ValueSpec::Bits(b) => {
            lemma_read_tlv(TAG_OCTET_STRING, b, rest);
        },
        ValueSpec::Null => {
            assert(enc_null() =~= tlv(TAG_NULL, Seq::<u8>::empty()));
            lemma_read_tlv(TAG_NULL, Seq::<u8>::empty(), rest);
        },
    }
}

pub proof fn lemma_read_binding(b: BindingSpec, rest: Seq<u8>)
    requires
        (binding_enc(b) + rest).len() < length_limit(),
        forall|i: int| 0 <= i < binding_oids(b).len() ==> oid_canonical(#[trigger] binding_oids(b)[i]),
    ensures
        read_binding(binding_enc(b) + rest) == Some(((b.0, on_wire(b.1)), rest)),
{
    let c = enc_oid(b.0) + value_enc(b.1);
    lemma_read_tlv(TAG_SEQUENCE, c, rest);
    assert(binding_oids(b)[0] == b.0);
    lemma_read_tlv(TAG_OID, oid_content(b.0), value_enc(b.1));
    lemma_read_oid_content(b.0);
    if let ValueSpec::ObjectId(arcs) = b.1 {
        assert(binding_oids(b)[1] == arcs);
    }
    lemma_read_value(b.1, Seq::<u8>::empty());
    assert(value_enc(b.1) + Seq::<u8>::empty() =~= value_enc(b.1));
}

pub proof fn lemma_read_bindings(bs: Seq<BindingSpec>)
    requires
        bindings_content(bs).len() < length_limit(),
        forall|i: int| 0 <= i < bindings_oids(bs).len() ==> oid_canonical(#[trigger] bindings_oids(bs)[i]),
    ensures
        read_bindings(bindings_content(bs)) == Some(wire_bindings(bs)),
    decreases bs.len(),
{
    if bs.len() == 0 {
        assert(bindings_content(bs) =~= Seq::<u8>::empty());
        assert(wire_bindings(bs) =~= Seq::<BindingSpec>::empty());
    } else {
        let b = bs[0];
        let one = seq![b];
        let tail = bs.drop_first();
        assert(bs =~= one + tail);
        lemma_bindings_content_append(one, tail);
        assert(one.drop_last() =~= Seq::<BindingSpec>::empty());
        assert(one.last() == b);
        assert(bindings_content(Seq::<BindingSpec>::empty()) =~= Seq::<u8>::empty());
        assert(bindings_oids(Seq::<BindingSpec>::empty()) =~= Seq::<Seq<u32>>::empty());
        assert(bindings_content(one) =~= binding_enc(b));
        assert(bindings_oids(one) =~= binding_oids(b));
        let all = bindings_oids(bs);
        assert(all =~= binding_oids(b) + bindings_oids(tail));
        assert forall|i: int| 0 <= i < binding_oids(b).len() implies oid_canonical(
            #[trigger] binding_oids(b)[i],
        ) by {
            assert(all[i] == binding_oids(b)[i]);
        }
        assert forall|i: int| 0 <= i < bindings_oids(tail).len() implies oid_canonical(
            #[trigger] bindings_oids(tail)[i],
        ) by {
            assert(all[binding_oids(b).len() + i] == bindings_oids(tail)[i]);
        }
        lemma_read_binding(b, bindings_content(tail));
        lemma_read_bindings(tail);
        assert(seq![(b.0, on_wire(b.1))] + wire_bindings(tail) =~= wire_bindings(bs));
    }
}

proof fn lemma_read_trap_pdu_fields(request_id: int, bs: Seq<BindingSpec>)
    requires
        (enc_int(TAG_INTEGER, request_id) + enc_int(TAG_INTEGER, 0) + enc_int(TAG_INTEGER, 0)
            + binding_list_enc(bs)).len() < length_limit(),
        forall|i: int| 0 <= i < bindings_oids(bs).len() ==> oid_canonical(#[trigger] bindings_oids(bs)[i]),
    ensures
        read_pdu_fields(
            enc_int(TAG_INTEGER, request_id) + enc_int(TAG_INTEGER, 0) + enc_int(TAG_INTEGER, 0)
                + binding_list_enc(bs),
        ) == Some((request_id, 0int, 0int, wire_bindings(bs))),
{
    reveal(read_pdu_fields);
    let none = Seq::<u8>::empty();
    let list = binding_list_enc(bs);
    let f2 = enc_int(TAG_INTEGER, 0) + list;
    let f1 = enc_int(TAG_INTEGER, 0) + f2;
    let fields = enc_int(TAG_INTEGER, request_id) + f1;
    assert(fields =~= enc_int(TAG_INTEGER, request_id) + enc_int(TAG_INTEGER, 0) + enc_int(
        TAG_INTEGER,
        0,
    ) + list);
    lemma_read_int(TAG_INTEGER, request_id, f1);
    lemma_read_int(TAG_INTEGER, 0, f2);
    lemma_read_int(TAG_INTEGER, 0, list);
    assert(list + none =~= list);
    lemma_read_tlv(TAG_SEQUENCE, bindings_content(bs), none);
    lemma_read_bindings(bs);
}

/// An SNMPv2c trap message reads back as what it was built from: version
/// 1 (v2c), the community, the request-id, error-status and error-index 0,
/// and the var-binds in order, sysUpTime.0 and snmpTrapOID.0 first. BITS
/// read back as the OCTET STRING they travel as. This holds when every
/// OBJECT IDENTIFIER is canonical (a second arc of 40 or more under a first
/// arc of 0 or 1 reads back under arc 2) and the message fits in memory.
pub proof fn lemma_v2c_message_decodes(t: V2cTrapSpec)
    requires
        forall|i: int| 0 <= i < v2c_oids(t).len() ==> oid_canonical(#[trigger] v2c_oids(t)[i]),
        v2c_message(t).len() <= usize::MAX,
    ensures
        read_v2c_trap(v2c_message(t)) == Some(
            TrapFields {
                version: 1,
                community: t.community,
                request_id: t.request_id as int,
                error_status: 0,
                error_index: 0,
                varbinds: wire_bindings(v2c_bindings(t)),
            },
        ),
{
    lemma_length_limit();
    let bs = v2c_bindings(t);
    let fields = enc_int(TAG_INTEGER, t.request_id as int) + enc_int(TAG_INTEGER, 0) + enc_int(
        TAG_INTEGER,
        0,
    ) + binding_list_enc(bs);
    let pdu = tlv(TAG_V2_TRAP, fields);
    let r1 = tlv(TAG_OCTET_STRING, t.community) + pdu;
    let body = enc_int(TAG_INTEGER, 1) + r1;
    let msg = v2c_message(t);
    assert(msg =~= tlv(TAG_SEQUENCE, body));
    let none = Seq::<u8>::empty();
    assert(msg + none =~= msg);
    lemma_read_tlv(TAG_SEQUENCE, body, none);
    assert(read_tlv(msg) == Some((TAG_SEQUENCE, body, none)));
    lemma_read_int(TAG_INTEGER, 1, r1);
    assert(read_int(body, TAG_INTEGER) == Some((1int, r1)));
    lemma_read_tlv(TAG_OCTET_STRING, t.community, pdu);
    assert(read_tlv(r1) == Some((TAG_OCTET_STRING, t.community, pdu)));
    assert(pdu + none =~= pdu);
    lemma_read_tlv(TAG_V2_TRAP, fields, none);
    assert(read_tlv(pdu) == Some((TAG_V2_TRAP, fields, none)));
    assert forall|i: int| 0 <= i < bindings_oids(bs).len() implies oid_canonical(
        #[trigger] bindings_oids(bs)[i],
    ) by {
        assert(v2c_oids(t)[i] == bindings_oids(bs)[i]);
    }
    lemma_read_trap_pdu_fields(t.request_id as int, bs);
}

} // verus!
