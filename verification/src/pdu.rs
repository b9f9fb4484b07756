//! SNMPv1 and SNMPv2c trap messages, BER-encoded.
//!
//! A v2c trap carries `sysUpTime.0` and `snmpTrapOID.0` as its first two
//! var-binds, followed by the caller's var-binds; a v1 trap carries the
//! enterprise OID, agent address, generic/specific codes and time stamp in
//! the PDU itself.

use vstd::prelude::*;
use vstd::string::*;
use crate::ber::{
    enc_int, enc_null, enc_oid, oid_encodable, push_all, push_int, push_null, push_oid, push_tlv,
    push_uint, tlv, wrap_tlv, TAG_COUNTER64, TAG_GAUGE, TAG_INTEGER, TAG_IP_ADDRESS,
    TAG_OCTET_STRING, TAG_SEQUENCE, TAG_TIMETICKS, TAG_V1_TRAP, TAG_V2_TRAP,
};
use crate::error::Error;
use crate::net::Ipv4Addr;
use crate::text::{dec, push_dec, text};
use crate::varbind::{ValueSpec, VarBindValue};

verus! {

/// `1.3.6.1.2.1.1.3.0`, sysUpTime.0.
pub open spec fn sys_uptime_oid_spec() -> Seq<u32> {
    seq![1u32, 3, 6, 1, 2, 1, 1, 3, 0]
}

/// `1.3.6.1.6.3.1.1.4.1.0`, snmpTrapOID.0.
pub open spec fn snmp_trap_oid_spec() -> Seq<u32> {
    seq![1u32, 3, 6, 1, 6, 3, 1, 1, 4, 1, 0]
}

/// `1.3.6.1.4.1.3.1.1`, Net-SNMP's default v1 enterprise OID.
pub open spec fn default_v1_enterprise_spec() -> Seq<u32> {
    seq![1u32, 3, 6, 1, 4, 1, 3, 1, 1]
}

pub fn sys_uptime_oid() -> (r: Vec<u32>)
    ensures
        r@ == sys_uptime_oid_spec(),
{
    let r = vec![1u32, 3, 6, 1, 2, 1, 1, 3, 0];
    assert(r@ =~= sys_uptime_oid_spec());
    r
}

pub fn snmp_trap_oid() -> (r: Vec<u32>)
    ensures
        r@ == snmp_trap_oid_spec(),
{
    let r = vec![1u32, 3, 6, 1, 6, 3, 1, 1, 4, 1, 0];
    assert(r@ =~= snmp_trap_oid_spec());
    r
}

pub fn default_v1_enterprise_oid() -> (r: Vec<u32>)
    ensures
        r@ == default_v1_enterprise_spec(),
{
    let r = vec![1u32, 3, 6, 1, 4, 1, 3, 1, 1];
    assert(r@ =~= default_v1_enterprise_spec());
    r
}

#[derive(Debug, Clone)]
pub struct V2cTrap {
    pub community: Vec<u8>,
    pub request_id: i32,
    pub uptime_centiseconds: u32,
    pub trap_oid: Vec<u32>,
    pub varbinds: Vec<(Vec<u32>, VarBindValue)>,
}

#[derive(Debug, Clone)]
pub struct V1Trap {
    pub community: Vec<u8>,
    pub enterprise: Vec<u32>,
    pub agent_addr: Ipv4Addr,
    pub generic: i32,
    pub specific: i32,
    pub uptime_centiseconds: u32,
    pub varbinds: Vec<(Vec<u32>, VarBindValue)>,
}

/// A var-bind as values.
pub type BindingSpec = (Seq<u32>, ValueSpec);

/// The content of a [`V2cTrap`].
pub struct V2cTrapSpec {
    pub community: Seq<u8>,
    pub request_id: i32,
    pub uptime_centiseconds: u32,
    pub trap_oid: Seq<u32>,
    pub varbinds: Seq<BindingSpec>,
}

/// The content of a [`V1Trap`].
pub struct V1TrapSpec {
    pub community: Seq<u8>,
    pub enterprise: Seq<u32>,
    pub agent_addr: Ipv4Addr,
    pub generic: i32,
    pub specific: i32,
    pub uptime_centiseconds: u32,
    pub varbinds: Seq<BindingSpec>,
}

impl View for V2cTrap {
    type V = V2cTrapSpec;

    open spec fn view(&self) -> V2cTrapSpec {
        V2cTrapSpec {
            community: self.community@,
            request_id: self.request_id,
            uptime_centiseconds: self.uptime_centiseconds,
            trap_oid: self.trap_oid@,
            varbinds: bindings_view(self.varbinds@),
        }
    }
}

impl View for V1Trap {
    type V = V1TrapSpec;

    open spec fn view(&self) -> V1TrapSpec {
        V1TrapSpec {
            community: self.community@,
            enterprise: self.enterprise@,
            agent_addr: self.agent_addr,
            generic: self.generic,
            specific: self.specific,
            uptime_centiseconds: self.uptime_centiseconds,
            varbinds: bindings_view(self.varbinds@),
        }
    }
}

pub open spec fn bindings_view(vbs: Seq<(Vec<u32>, VarBindValue)>) -> Seq<BindingSpec> {
    vbs.map_values(|p: (Vec<u32>, VarBindValue)| (p.0@, p.1@))
}

// ---------------------------------------------------------------------
// Encodings
// ---------------------------------------------------------------------

/// The BER encoding of a var-bind value (ObjectSyntax, or NULL for an
/// unspecified value). Counter64 exists only from SMIv2 on.
pub open spec fn value_enc(v: ValueSpec) -> Seq<u8> {
    match v {
        ValueSpec::Integer(i) => enc_int(TAG_INTEGER, i),
        ValueSpec::Unsigned32(u) => enc_int(TAG_GAUGE, u as int),
        ValueSpec::TimeTicks(t) => enc_int(TAG_TIMETICKS, t as int),
        ValueSpec::IpAddress(ip) => tlv(TAG_IP_ADDRESS, ip.spec_octets()),
        ValueSpec::ObjectId(arcs) => enc_oid(arcs),
        ValueSpec::OctetString(b) => tlv(TAG_OCTET_STRING, b),
        ValueSpec::Null => enc_null(),
        ValueSpec::Bits(b) => tlv(TAG_OCTET_STRING, b),
        ValueSpec::Counter64(n) => enc_int(TAG_COUNTER64, n as int),
    }
}

/// `VarBind ::= SEQUENCE { name ObjectName, value ... }`.
pub open spec fn binding_enc(b: BindingSpec) -> Seq<u8> {
    tlv(TAG_SEQUENCE, enc_oid(b.0) + value_enc(b.1))
}

/// The var-binds' encodings, concatenated.
pub open spec fn bindings_content(bs: Seq<BindingSpec>) -> Seq<u8>
    decreases bs.len(),
{
    if bs.len() == 0 {
        Seq::<u8>::empty()
    } else {
        bindings_content(bs.drop_last()) + binding_enc(bs.last())
    }
}

/// `VarBindList ::= SEQUENCE OF VarBind`.
pub open spec fn binding_list_enc(bs: Seq<BindingSpec>) -> Seq<u8> {
    tlv(TAG_SEQUENCE, bindings_content(bs))
}

/// The OBJECT IDENTIFIERs of a var-bind, in encoding order.
pub open spec fn binding_oids(b: BindingSpec) -> Seq<Seq<u32>> {
    match b.1 {
        ValueSpec::ObjectId(arcs) => seq![b.0, arcs],
        _ => seq![b.0],
    }
}

pub open spec fn bindings_oids(bs: Seq<BindingSpec>) -> Seq<Seq<u32>>
    decreases bs.len(),
{
    if bs.len() == 0 {
        Seq::<Seq<u32>>::empty()
    } else {
        bindings_oids(bs.drop_last()) + binding_oids(bs.last())
    }
}

/// The first OBJECT IDENTIFIER that BER cannot express, in encoding order.
pub open spec fn first_bad_oid(oids: Seq<Seq<u32>>) -> Option<Seq<u32>>
    decreases oids.len(),
{
    if oids.len() == 0 {
        None
    } else {
        match first_bad_oid(oids.drop_last()) {
            Some(x) => Some(x),
            None => if oid_encodable(oids.last()) {
                None
            } else {
                Some(oids.last())
            },
        }
    }
}

/// `[a, b, c]`, the debug rendering of an arc list.
pub open spec fn arcs_debug(arcs: Seq<u32>) -> Seq<char> {
    "["@ + arcs_items(arcs) + "]"@
}

pub open spec fn arcs_items(arcs: Seq<u32>) -> Seq<char>
    decreases arcs.len(),
{
    if arcs.len() == 0 {
        Seq::<char>::empty()
    } else if arcs.len() == 1 {
        dec(arcs[0] as nat)
    } else {
        arcs_items(arcs.drop_last()) + ", "@ + dec(arcs.last() as nat)
    }
}

/// What the BER encoder reports for an OBJECT IDENTIFIER it cannot encode.
pub open spec fn bad_oid_message(arcs: Seq<u32>) -> Seq<char> {
    "Invalid Object Identifier: must have at least two components and first octet must be 0, 1 or 2. Provided: "@
        + arcs_debug(arcs) + " (Codec: BER)"@
}

/// The var-binds of a v2 trap: sysUpTime.0, snmpTrapOID.0, then the rest.
pub open spec fn v2_trap_bindings(uptime: nat, trap_oid: Seq<u32>, rest: Seq<BindingSpec>) -> Seq<
    BindingSpec,
> {
    seq![
        (sys_uptime_oid_spec(), ValueSpec::TimeTicks(uptime)),
        (snmp_trap_oid_spec(), ValueSpec::ObjectId(trap_oid)),
    ] + rest
}

/// `SNMPv2-Trap-PDU ::= [7] IMPLICIT PDU` with error-status and
/// error-index 0.
pub open spec fn v2_trap_pdu_enc(request_id: int, bs: Seq<BindingSpec>) -> Seq<u8> {
    tlv(
        TAG_V2_TRAP,
        enc_int(TAG_INTEGER, request_id) + enc_int(TAG_INTEGER, 0) + enc_int(TAG_INTEGER, 0)
            + binding_list_enc(bs),
    )
}

/// The community-based message of version `version` (0 for v1, 1 for v2c)
/// around an already encoded PDU.
pub open spec fn community_message_enc(version: int, community: Seq<u8>, pdu: Seq<u8>) -> Seq<
    u8,
> {
    tlv(TAG_SEQUENCE, enc_int(TAG_INTEGER, version) + tlv(TAG_OCTET_STRING, community) + pdu)
}

/// The var-binds a v2c trap message carries.
pub open spec fn v2c_bindings(t: V2cTrapSpec) -> Seq<BindingSpec> {
    v2_trap_bindings(t.uptime_centiseconds as nat, t.trap_oid, t.varbinds)
}

/// The bytes of a v2c trap message (all OBJECT IDENTIFIERs encodable).
pub open spec fn v2c_message(t: V2cTrapSpec) -> Seq<u8> {
    community_message_enc(
        1,
        t.community,
        v2_trap_pdu_enc(t.request_id as int, v2c_bindings(t)),
    )
}

/// `Trap-PDU ::= [4] IMPLICIT SEQUENCE { enterprise, agent-addr,
/// generic-trap, specific-trap, time-stamp, variable-bindings }`.
pub open spec fn v1_trap_pdu_enc(t: V1TrapSpec) -> Seq<u8> {
    tlv(
        TAG_V1_TRAP,
        enc_oid(t.enterprise) + tlv(TAG_IP_ADDRESS, t.agent_addr.spec_octets()) + enc_int(
            TAG_INTEGER,
            t.generic as int,
        ) + enc_int(TAG_INTEGER, t.specific as int) + enc_int(
            TAG_TIMETICKS,
            t.uptime_centiseconds as int,
        ) + binding_list_enc(t.varbinds),
    )
}

pub open spec fn v1_message(t: V1TrapSpec) -> Seq<u8> {
    community_message_enc(0, t.community, v1_trap_pdu_enc(t))
}

/// Why SNMPv1 cannot carry a value: Counter64 and BITS exist only from
/// SMIv2 on.
pub open spec fn v1_unrepresentable(v: ValueSpec) -> Option<Seq<char>> {
    match v {
        ValueSpec::Counter64(_) => Some(counter64_v1_message()),
        ValueSpec::Bits(_) => Some(bits_v1_message()),
        _ => None,
    }
}

/// The first var-bind, in order, that SNMPv1 cannot carry, as the message.
pub open spec fn first_v1_unrepresentable(bs: Seq<BindingSpec>) -> Option<Seq<char>>
    decreases bs.len(),
{
    if bs.len() == 0 {
        None
    } else {
        match first_v1_unrepresentable(bs.drop_last()) {
            Some(m) => Some(m),
            None => v1_unrepresentable(bs.last().1),
        }
    }
}

pub open spec fn counter64_v1_message() -> Seq<char> {
    "Counter64 (type 'U') is not representable in SNMPv1; use -v 2c instead"@
}

pub open spec fn bits_v1_message() -> Seq<char> {
    "BITS (type 'b') is not representable in SNMPv1; use -v 2c instead"@
}

// ---------------------------------------------------------------------
// Lemmas
// ---------------------------------------------------------------------

pub proof fn lemma_first_bad_oid_append(xs: Seq<Seq<u32>>, ys: Seq<Seq<u32>>)
    ensures
        first_bad_oid(xs + ys) == (match first_bad_oid(xs) {
            Some(x) => Some(x),
            None => first_bad_oid(ys),
        }),
    decreases ys.len(),
{
    if ys.len() == 0 {
        assert(xs + ys =~= xs);
    } else {
        assert((xs + ys).drop_last() =~= xs + ys.drop_last());
        lemma_first_bad_oid_append(xs, ys.drop_last());
    }
}

pub proof fn lemma_first_bad_none(oids: Seq<Seq<u32>>)
    ensures
        first_bad_oid(oids) is None <==> forall|i: int| 0 <= i < oids.len() ==> oid_encodable(
            #[trigger] oids[i],
        ),
    decreases oids.len(),
{
    if oids.len() > 0 {
        lemma_first_bad_none(oids.drop_last());
        if first_bad_oid(oids) is None {
            assert forall|i: int| 0 <= i < oids.len() implies oid_encodable(#[trigger] oids[i]) by {
                if i < oids.len() - 1 {
                    assert(oids[i] == oids.drop_last()[i]);
                }
            }
        } else if first_bad_oid(oids.drop_last()) is None {
            assert(!oid_encodable(oids[oids.len() - 1]));
        } else {
            let i = choose|i: int| 0 <= i < oids.drop_last().len() && !oid_encodable(oids.drop_last()[i]);
            assert(oids[i] == oids.drop_last()[i]);
        }
    }
}

// ---------------------------------------------------------------------
// Exec encoders
// ---------------------------------------------------------------------

fn push_arcs_debug(s: &mut String, arcs: &[u32])
    ensures
        final(s)@ == old(s)@ + arcs_debug(arcs@),
{
    let ghost start = s@;
    s.append("[");
    let mut i: usize = 0;
    assert(arcs@.subrange(0, 0) =~= Seq::<u32>::empty());
    while i < arcs.len()
        invariant
            0 <= i <= arcs.len(),
            s@ == start + "["@ + arcs_items(arcs@.subrange(0, i as int)),
        decreases arcs.len() - i,
    {
        let ghost prev = s@;
        if i > 0 {
            s.append(", ");
        }
        push_dec(s, arcs[i] as u64);
        proof {
            let t = arcs@.subrange(0, i + 1);
            assert(t.drop_last() =~= arcs@.subrange(0, i as int));
            if i == 0 {
                assert(t =~= seq![arcs@[0]]);
            }
        }
        i = i + 1;
        assert(s@ =~= start + "["@ + arcs_items(arcs@.subrange(0, i as int)));
    }
    s.append("]");
    assert(arcs@.subrange(0, i as int) =~= arcs@);
}

/// The encoding error for an OBJECT IDENTIFIER that BER cannot express.
fn bad_oid_error(arcs: &[u32]) -> (e: Error)
    ensures
        e matches Error::Encode(m) && m@ == bad_oid_message(arcs@),
{
    let mut m = text(
        "Invalid Object Identifier: must have at least two components and first octet must be 0, 1 or 2. Provided: ",
    );
    push_arcs_debug(&mut m, arcs);
    m.append(" (Codec: BER)");
    Error::Encode(m)
}

/// Appends the encoding of a var-bind value.
pub fn push_value(out: &mut Vec<u8>, v: &VarBindValue)
    requires
        v@ matches ValueSpec::ObjectId(arcs) ==> oid_encodable(arcs),
    ensures
        final(out)@ == old(out)@ + value_enc(v@),
{
    match v {
        VarBindValue::Integer(i) => push_int(out, TAG_INTEGER, *i as i64),
        VarBindValue::Unsigned32(u) => push_uint(out, TAG_GAUGE, *u as u64),
        VarBindValue::TimeTicks(t) => push_uint(out, TAG_TIMETICKS, *t as u64),
        VarBindValue::IpAddress(ip) => {
            let o = ip.octets();
            push_tlv(out, TAG_IP_ADDRESS, &o);
        },
        VarBindValue::ObjectId(arcs) => push_oid(out, arcs.as_slice()),
        VarBindValue::OctetString(b) => push_tlv(out, TAG_OCTET_STRING, b.as_slice()),
        VarBindValue::Null => push_null(out),
        VarBindValue::Bits(b) => push_tlv(out, TAG_OCTET_STRING, b.as_slice()),
        VarBindValue::Counter64(n) => push_uint(out, TAG_COUNTER64, *n),
    }
}

/// Appends one `VarBind` SEQUENCE.
pub fn push_binding(out: &mut Vec<u8>, name: &[u32], v: &VarBindValue)
    requires
        oid_encodable(name@),
        v@ matches ValueSpec::ObjectId(arcs) ==> oid_encodable(arcs),
    ensures
        final(out)@ == old(out)@ + binding_enc((name@, v@)),
{
    let mut content: Vec<u8> = Vec::new();
    push_oid(&mut content, name);
    push_value(&mut content, v);
    assert(content@ =~= enc_oid(name@) + value_enc(v@));
    push_tlv(out, TAG_SEQUENCE, content.as_slice());
}

/// Checks every OBJECT IDENTIFIER of `vbs` in encoding order, returning the
/// first one BER cannot express.
fn check_binding_oids(vbs: &Vec<(Vec<u32>, VarBindValue)>) -> (r: Result<(), Error>)
    ensures
        r is Ok <==> first_bad_oid(bindings_oids(bindings_view(vbs@))) is None,
        r matches Err(e) ==> (e matches Error::Encode(m) && first_bad_oid(
            bindings_oids(bindings_view(vbs@)),
        ) matches Some(x) && m@ == bad_oid_message(x)),
{
    let ghost bs = bindings_view(vbs@);
    let mut i: usize = 0;
    assert(bs.take(0) =~= Seq::<BindingSpec>::empty());
    while i < vbs.len()
        invariant
            0 <= i <= vbs.len(),
            bs == bindings_view(vbs@),
            first_bad_oid(bindings_oids(bs.take(i as int))) is None,
        decreases vbs.len() - i,
    {
        let (name, v) = &vbs[i];
        let ghost prefix = bindings_oids(bs.take(i as int));
        assert(bs.take(i + 1).drop_last() =~= bs.take(i as int));
        assert(bs[i as int] == (name@, v@));
        assert(bs.take(i + 1).last() == (name@, v@));
        let ghost whole = bindings_oids(bs.take(i + 1));
        assert(whole == prefix + binding_oids((name@, v@)));
        if !crate::ber::oid_is_encodable(name.as_slice()) {
            proof {
                let bo = binding_oids((name@, v@));
                lemma_first_bad_oid_append(prefix, bo);
                lemma_first_bad_small(name@, v@);
                assert(first_bad_oid(whole) == Some(name@));
                lemma_bindings_prefix_bad(bs, (i + 1) as nat);
            }
            return Err(bad_oid_error(name.as_slice()));
        }
        if let VarBindValue::ObjectId(arcs) = v {
            if !crate::ber::oid_is_encodable(arcs.as_slice()) {
                proof {
                    let bo = binding_oids((name@, v@));
                    lemma_first_bad_oid_append(prefix, bo);
                    lemma_first_bad_small(name@, v@);
                    assert(first_bad_oid(whole) == Some(arcs@));
                    lemma_bindings_prefix_bad(bs, (i + 1) as nat);
                }
                return Err(bad_oid_error(arcs.as_slice()));
            }
        }
        proof {
            let bo = binding_oids((name@, v@));
            lemma_first_bad_oid_append(prefix, bo);
            lemma_first_bad_none(bo);
        }
        i = i + 1;
    }
    assert(bs.take(i as int) =~= bs);
    Ok(())
}

/// A var-bind whose name and value OIDs are encodable contributes no bad
/// OBJECT IDENTIFIER.
pub proof fn lemma_binding_oids_encodable(name: Seq<u32>, v: ValueSpec)
    requires
        oid_encodable(name),
        v matches ValueSpec::ObjectId(arcs) ==> oid_encodable(arcs),
    ensures
        first_bad_oid(binding_oids((name, v))) is None,
{
    lemma_first_bad_small(name, v);
}

/// The first bad OBJECT IDENTIFIER of a single var-bind.
proof fn lemma_first_bad_small(name: Seq<u32>, v: ValueSpec)
    ensures
        first_bad_oid(binding_oids((name, v))) == (if !oid_encodable(name) {
            Some(name)
        } else {
            match v {
                ValueSpec::ObjectId(arcs) => if oid_encodable(arcs) {
                    None
                } else {
                    Some(arcs)
                },
                _ => None,
            }
        }),
{
    let one = seq![name];
    assert(one.drop_last() =~= Seq::<Seq<u32>>::empty());
    assert(one.last() == name);
    assert(first_bad_oid(Seq::<Seq<u32>>::empty()) is None);
    assert(first_bad_oid(one) == (if oid_encodable(name) { None } else { Some(name) }));
    if let ValueSpec::ObjectId(arcs) = v {
        let two = seq![name, arcs];
        assert(two.drop_last() =~= one);
        assert(two.last() == arcs);
        assert(binding_oids((name, v)) == two);
    } else {
        assert(binding_oids((name, v)) == one);
    }
}

/// Once a prefix of the var-binds holds a bad OBJECT IDENTIFIER, the whole
/// list reports that one.
proof fn lemma_bindings_prefix_bad(bs: Seq<BindingSpec>, k: nat)
    requires
        k <= bs.len(),
        first_bad_oid(bindings_oids(bs.take(k as int))) is Some,
    ensures
        first_bad_oid(bindings_oids(bs)) == first_bad_oid(bindings_oids(bs.take(k as int))),
    decreases bs.len(),
{
    if k < bs.len() {
        assert(bs.drop_last().take(k as int) =~= bs.take(k as int));
        lemma_bindings_prefix_bad(bs.drop_last(), k);
        lemma_first_bad_oid_append(bindings_oids(bs.drop_last()), binding_oids(bs.last()));
    } else {
        assert(bs.take(k as int) =~= bs);
    }
}

/// The concatenated `VarBind` encodings of `vbs`.
fn binding_contents(vbs: &Vec<(Vec<u32>, VarBindValue)>) -> (r: Vec<u8>)
    requires
        first_bad_oid(bindings_oids(bindings_view(vbs@))) is None,
    ensures
        r@ == bindings_content(bindings_view(vbs@)),
{
    let ghost bs = bindings_view(vbs@);
    let mut content: Vec<u8> = Vec::new();
    let mut i: usize = 0;
    assert(bs.take(0) =~= Seq::<BindingSpec>::empty());
    while i < vbs.len()
        invariant
            0 <= i <= vbs.len(),
            bs == bindings_view(vbs@),
            first_bad_oid(bindings_oids(bs)) is None,
            content@ == bindings_content(bs.take(i as int)),
        decreases vbs.len() - i,
    {
        let (name, v) = &vbs[i];
        assert(bs[i as int] == (name@, v@));
        proof {
            lemma_binding_oids_at(bs, i as nat);
        }
        push_binding(&mut content, name.as_slice(), v);
        assert(bs.take(i + 1).drop_last() =~= bs.take(i as int));
        i = i + 1;
    }
    assert(bs.take(i as int) =~= bs);
    content
}

/// When no OBJECT IDENTIFIER of the list is bad, those of each var-bind
/// are encodable.
proof fn lemma_binding_oids_at(bs: Seq<BindingSpec>, i: nat)
    requires
        i < bs.len(),
        first_bad_oid(bindings_oids(bs)) is None,
    ensures
        oid_encodable(bs[i as int].0),
        bs[i as int].1 matches ValueSpec::ObjectId(arcs) ==> oid_encodable(arcs),
    decreases bs.len(),
{
    lemma_first_bad_oid_append(bindings_oids(bs.drop_last()), binding_oids(bs.last()));
    if i < bs.len() - 1 {
        assert(bs[i as int] == bs.drop_last()[i as int]);
        lemma_binding_oids_at(bs.drop_last(), i);
    } else {
        lemma_first_bad_none(binding_oids(bs.last()));
        assert(binding_oids(bs.last())[0] == bs.last().0);
        if bs.last().1 is ObjectId {
            assert(binding_oids(bs.last())[1] == bs.last().1->ObjectId_0);
        }
    }
}

pub proof fn lemma_bindings_content_append(a: Seq<BindingSpec>, b: Seq<BindingSpec>)
    ensures
        bindings_content(a + b) == bindings_content(a) + bindings_content(b),
        bindings_oids(a + b) == bindings_oids(a) + bindings_oids(b),
    decreases b.len(),
{
    if b.len() == 0 {
        assert(a + b =~= a);
        assert(bindings_content(a) + bindings_content(b) =~= bindings_content(a));
        assert(bindings_oids(a) + bindings_oids(b) =~= bindings_oids(a));
    } else {
        assert((a + b).drop_last() =~= a + b.drop_last());
        assert((a + b).last() == b.last());
        lemma_bindings_content_append(a, b.drop_last());
        assert(bindings_content(a + b) =~= bindings_content(a) + bindings_content(b));
        assert(bindings_oids(a + b) =~= bindings_oids(a) + bindings_oids(b));
    }
}

/// A copy of an arc list.
pub fn copy_arcs(v: &[u32]) -> (r: Vec<u32>)
    ensures
        r@ == v@,
{
    let mut r: Vec<u32> = Vec::new();
    let mut i: usize = 0;
    while i < v.len()
        invariant
            0 <= i <= v.len(),
            r@ == v@.subrange(0, i as int),
        decreases v.len() - i,
    {
        r.push(v[i]);
        i = i + 1;
        assert(r@ =~= v@.subrange(0, i as int));
    }
    assert(v@.subrange(0, i as int) =~= v@);
    r
}

/// The OBJECT IDENTIFIERs of a v2c trap message, in encoding order.
pub open spec fn v2c_oids(t: V2cTrapSpec) -> Seq<Seq<u32>> {
    bindings_oids(v2c_bindings(t))
}

pub proof fn lemma_v2_prelude(uptime: nat, trap_oid: Seq<u32>, rest: Seq<BindingSpec>)
    ensures
        bindings_oids(v2_trap_bindings(uptime, trap_oid, rest)) == seq![
            sys_uptime_oid_spec(),
            snmp_trap_oid_spec(),
            trap_oid,
        ] + bindings_oids(rest),
        bindings_content(v2_trap_bindings(uptime, trap_oid, rest)) == binding_enc(
            (sys_uptime_oid_spec(), ValueSpec::TimeTicks(uptime)),
        ) + binding_enc((snmp_trap_oid_spec(), ValueSpec::ObjectId(trap_oid))) + bindings_content(
            rest,
        ),
{
    let b0 = (sys_uptime_oid_spec(), ValueSpec::TimeTicks(uptime));
    let b1 = (snmp_trap_oid_spec(), ValueSpec::ObjectId(trap_oid));
    let pre = seq![b0, b1];
    lemma_bindings_content_append(pre, rest);
    assert(pre.drop_last() =~= seq![b0]);
    assert(pre.last() == b1);
    assert(seq![b0].drop_last() =~= Seq::<BindingSpec>::empty());
    assert(seq![b0].last() == b0);
    assert(binding_oids(b0) == seq![sys_uptime_oid_spec()]);
    assert(binding_oids(b1) == seq![snmp_trap_oid_spec(), trap_oid]);
    assert(bindings_oids(Seq::<BindingSpec>::empty()) =~= Seq::<Seq<u32>>::empty());
    assert(bindings_content(Seq::<BindingSpec>::empty()) =~= Seq::<u8>::empty());
    assert(bindings_oids(seq![b0]) =~= seq![sys_uptime_oid_spec()]);
    assert(bindings_content(seq![b0]) =~= binding_enc(b0));
    assert(bindings_oids(pre) =~= seq![sys_uptime_oid_spec(), snmp_trap_oid_spec(), trap_oid]);
    assert(bindings_content(pre) =~= binding_enc(b0) + binding_enc(b1));
}

pub proof fn lemma_first_bad_prelude(trap_oid: Seq<u32>, rest: Seq<Seq<u32>>)
    ensures
        first_bad_oid(seq![sys_uptime_oid_spec(), snmp_trap_oid_spec(), trap_oid] + rest) == (if !oid_encodable(trap_oid) {
            Some(trap_oid)
        } else {
            first_bad_oid(rest)
        }),
{
    let three = seq![sys_uptime_oid_spec(), snmp_trap_oid_spec(), trap_oid];
    lemma_first_bad_oid_append(three, rest);
    assert(three.drop_last() =~= seq![sys_uptime_oid_spec(), snmp_trap_oid_spec()]);
    assert(three.drop_last().drop_last() =~= seq![sys_uptime_oid_spec()]);
    assert(three.drop_last().drop_last().drop_last() =~= Seq::<Seq<u32>>::empty());
    assert(three.last() == trap_oid);
    assert(three.drop_last().last() == snmp_trap_oid_spec());
    assert(three.drop_last().drop_last().last() == sys_uptime_oid_spec());
    assert(first_bad_oid(Seq::<Seq<u32>>::empty()) is None);
    assert(first_bad_oid(three.drop_last().drop_last()) is None);
    assert(first_bad_oid(three.drop_last()) is None);
    assert(oid_encodable(sys_uptime_oid_spec()));
    assert(oid_encodable(snmp_trap_oid_spec()));
}

/// Encodes the `SNMPv2-Trap-PDU` of `t` (the community is not part of it):
/// sysUpTime.0 and snmpTrapOID.0 are prepended to the caller's var-binds.
/// Fails only when an OBJECT IDENTIFIER cannot be expressed in BER,
/// reporting the first one.
pub fn build_v2_trap_pdu(t: &V2cTrap) -> (r: Result<Vec<u8>, Error>)
    ensures
        r is Ok <==> first_bad_oid(v2c_oids(t@)) is None,
        r matches Ok(b) ==> b@ == v2_trap_pdu_enc(t.request_id as int, v2c_bindings(t@)),
        r matches Err(e) ==> (e matches Error::Encode(m) && first_bad_oid(v2c_oids(t@)) matches Some(
            x,
        ) && m@ == bad_oid_message(x)),
{
    proof {
        lemma_v2_prelude(t.uptime_centiseconds as nat, t.trap_oid@, bindings_view(t.varbinds@));
        lemma_first_bad_prelude(t.trap_oid@, bindings_oids(bindings_view(t.varbinds@)));
    }
    if !crate::ber::oid_is_encodable(t.trap_oid.as_slice()) {
        return Err(bad_oid_error(t.trap_oid.as_slice()));
    }
    check_binding_oids(&t.varbinds)?;
    let mut pdu: Vec<u8> = Vec::new();
    push_int(&mut pdu, TAG_INTEGER, t.request_id as i64);
    push_int(&mut pdu, TAG_INTEGER, 0);
    push_int(&mut pdu, TAG_INTEGER, 0);
    let mut list: Vec<u8> = Vec::new();
    let sys = sys_uptime_oid();
    push_binding(&mut list, sys.as_slice(), &VarBindValue::TimeTicks(t.uptime_centiseconds));
    let trap_oid_value = VarBindValue::ObjectId(copy_arcs(t.trap_oid.as_slice()));
    let snmp = snmp_trap_oid();
    push_binding(&mut list, snmp.as_slice(), &trap_oid_value);
    let user = binding_contents(&t.varbinds);
    push_all(&mut list, user.as_slice());
    push_tlv(&mut pdu, TAG_SEQUENCE, list.as_slice());
    let out = wrap_tlv(TAG_V2_TRAP, pdu.as_slice());
    assert(out@ =~= v2_trap_pdu_enc(t.request_id as int, v2c_bindings(t@)));
    Ok(out)
}

/// Encodes an SNMPv2c trap message. sysUpTime.0 and snmpTrapOID.0 are
/// prepended to the caller's var-binds. Fails only when an OBJECT
/// IDENTIFIER cannot be expressed in BER, reporting the first one.
pub fn build_v2c_trap(t: &V2cTrap) -> (r: Result<Vec<u8>, Error>)
    ensures
        r is Ok <==> first_bad_oid(v2c_oids(t@)) is None,
        r matches Ok(b) ==> b@ == v2c_message(t@),
        r matches Err(e) ==> (e matches Error::Encode(m) && first_bad_oid(v2c_oids(t@)) matches Some(
            x,
        ) && m@ == bad_oid_message(x)),
{
    let wrapped_pdu = build_v2_trap_pdu(t)?;
    let mut msg: Vec<u8> = Vec::new();
    push_int(&mut msg, TAG_INTEGER, 1);
    push_tlv(&mut msg, TAG_OCTET_STRING, t.community.as_slice());
    push_all(&mut msg, wrapped_pdu.as_slice());
    let out = wrap_tlv(TAG_SEQUENCE, msg.as_slice());
    assert(out@ =~= v2c_message(t@));
    Ok(out)
}

/// A fresh request-id, uniformly drawn from `1..=i32::MAX`.
pub fn fresh_request_id() -> (r: i32)
    ensures
        1 <= r <= i32::MAX,
{
    crate::entropy::random_in(1, 2147483647u32) as i32
}

/// The first var-bind of `vbs`, in order, that SNMPv1 cannot carry.
fn find_v1_unrepresentable(vbs: &Vec<(Vec<u32>, VarBindValue)>) -> (r: Option<Error>)
    ensures
        r is None <==> first_v1_unrepresentable(bindings_view(vbs@)) is None,
        r matches Some(e) ==> first_v1_unrepresentable(bindings_view(vbs@)) matches Some(m) && (e
            matches Error::Encode(x) && x@ == m),
{
    let ghost bs = bindings_view(vbs@);
    let mut i: usize = 0;
    assert(bs.take(0) =~= Seq::<BindingSpec>::empty());
    while i < vbs.len()
        invariant
            0 <= i <= vbs.len(),
            bs == bindings_view(vbs@),
            first_v1_unrepresentable(bs.take(i as int)) is None,
        decreases vbs.len() - i,
    {
        let (_, v) = &vbs[i];
        assert(bs.take(i + 1).drop_last() =~= bs.take(i as int));
        assert(bs.take(i + 1).last().1 == v@);
        match v {
            VarBindValue::Counter64(_) => {
                proof {
                    lemma_v1_unrepresentable_prefix(bs, (i + 1) as nat);
                }
                return Some(Error::Encode(text(
                    "Counter64 (type 'U') is not representable in SNMPv1; use -v 2c instead",
                )));
            },
            VarBindValue::Bits(_) => {
                proof {
                    lemma_v1_unrepresentable_prefix(bs, (i + 1) as nat);
                }
                return Some(Error::Encode(text(
                    "BITS (type 'b') is not representable in SNMPv1; use -v 2c instead",
                )));
            },
            _ => {},
        }
        i = i + 1;
    }
    assert(bs.take(i as int) =~= bs);
    None
}

proof fn lemma_v1_unrepresentable_prefix(bs: Seq<BindingSpec>, k: nat)
    requires
        k <= bs.len(),
        first_v1_unrepresentable(bs.take(k as int)) is Some,
    ensures
        first_v1_unrepresentable(bs) == first_v1_unrepresentable(bs.take(k as int)),
    decreases bs.len(),
{
    if k < bs.len() {
        assert(bs.drop_last().take(k as int) =~= bs.take(k as int));
        lemma_v1_unrepresentable_prefix(bs.drop_last(), k);
    } else {
        assert(bs.take(k as int) =~= bs);
    }
}

/// The OBJECT IDENTIFIERs of a v1 trap message, in encoding order.
pub open spec fn v1_oids(t: V1TrapSpec) -> Seq<Seq<u32>> {
    seq![t.enterprise] + bindings_oids(t.varbinds)
}

/// Encodes an SNMPv1 trap message. Fails when a var-bind carries a value
/// SNMPv1 has no type for (Counter64, BITS), reporting the first, or else
/// when an OBJECT IDENTIFIER cannot be expressed in BER, reporting the first
/// one.
pub fn build_v1_trap(t: &V1Trap) -> (r: Result<Vec<u8>, Error>)
    ensures
        r is Ok <==> first_v1_unrepresentable(t@.varbinds) is None && first_bad_oid(v1_oids(t@)) is None,
        r matches Ok(b) ==> b@ == v1_message(t@),
        r matches Err(e) ==> match first_v1_unrepresentable(t@.varbinds) {
            Some(m) => e matches Error::Encode(x) && x@ == m,
            None => e matches Error::Encode(m) && first_bad_oid(v1_oids(t@)) matches Some(x) && m@
                == bad_oid_message(x),
        },
{
    if let Some(e) = find_v1_unrepresentable(&t.varbinds) {
        return Err(e);
    }
    proof {
        let one = seq![t.enterprise@];
        lemma_first_bad_oid_append(one, bindings_oids(bindings_view(t.varbinds@)));
        assert(one.drop_last() =~= Seq::<Seq<u32>>::empty());
        assert(one.last() == t.enterprise@);
        assert(first_bad_oid(Seq::<Seq<u32>>::empty()) is None);
    }
    if !crate::ber::oid_is_encodable(t.enterprise.as_slice()) {
        return Err(bad_oid_error(t.enterprise.as_slice()));
    }
    check_binding_oids(&t.varbinds)?;
    let mut pdu: Vec<u8> = Vec::new();
    push_oid(&mut pdu, t.enterprise.as_slice());
    let addr = t.agent_addr.octets();
    push_tlv(&mut pdu, TAG_IP_ADDRESS, &addr);
    push_int(&mut pdu, TAG_INTEGER, t.generic as i64);
    push_int(&mut pdu, TAG_INTEGER, t.specific as i64);
    push_uint(&mut pdu, TAG_TIMETICKS, t.uptime_centiseconds as u64);
    let user = binding_contents(&t.varbinds);
    push_tlv(&mut pdu, TAG_SEQUENCE, user.as_slice());
    let wrapped_pdu = wrap_tlv(TAG_V1_TRAP, pdu.as_slice());
    let mut msg: Vec<u8> = Vec::new();
    push_int(&mut msg, TAG_INTEGER, 0);
    push_tlv(&mut msg, TAG_OCTET_STRING, t.community.as_slice());
    push_all(&mut msg, wrapped_pdu.as_slice());
    let out = wrap_tlv(TAG_SEQUENCE, msg.as_slice());
    assert(out@ =~= v1_message(t@));
    Ok(out)
}

} // verus!
