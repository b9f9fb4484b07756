use rasn::ber;
use rasn::types::{Integer, ObjectIdentifier, OctetString};
use rasn_smi::{v1 as smi_v1, v2 as smi_v2};
use smi_v2::{ApplicationSyntax as A, ObjectSyntax as O, SimpleSyntax as S};
use rasn_snmp::{v1 as snmp_v1, v2 as snmp_v2, v2c as snmp_v2c};
use snmptrap_rs::error::Error;
use snmptrap_rs::net::Ipv4Addr;
use snmptrap_rs::pdu::{build_v1_trap, build_v2c_trap, V1Trap, V2cTrap};
use snmptrap_rs::varbind::VarBindValue;

const SYS_UPTIME_OID: &[u32] = &[1, 3, 6, 1, 2, 1, 1, 3, 0];
const SNMP_TRAP_OID_OID: &[u32] = &[1, 3, 6, 1, 6, 3, 1, 1, 4, 1, 0];

fn oid(arcs: &[u32]) -> ObjectIdentifier {
    ObjectIdentifier::new_unchecked(arcs.to_vec().into())
}

fn rasn_v2_value(v: &VarBindValue) -> snmp_v2::VarBindValue {
    match v {
        VarBindValue::Integer(i) => snmp_v2::VarBindValue::Value(O::Simple(S::Integer(Integer::from(*i)))),
        VarBindValue::Unsigned32(u) => snmp_v2::VarBindValue::Value(O::ApplicationWide(A::Unsigned(smi_v1::Gauge(*u)))),
        VarBindValue::TimeTicks(t) => snmp_v2::VarBindValue::Value(O::ApplicationWide(A::Ticks(smi_v1::TimeTicks(*t)))),
        VarBindValue::IpAddress(ip) => snmp_v2::VarBindValue::Value(O::ApplicationWide(A::Address(smi_v1::IpAddress(rasn::types::FixedOctetString::from(ip.octets()))))),
        VarBindValue::ObjectId(a) => snmp_v2::VarBindValue::Value(O::Simple(S::ObjectId(oid(a)))),
        VarBindValue::OctetString(b) | VarBindValue::Bits(b) => snmp_v2::VarBindValue::Value(O::Simple(S::String(OctetString::from(b.clone())))),
        VarBindValue::Null => snmp_v2::VarBindValue::Unspecified,
        VarBindValue::Counter64(n) => snmp_v2::VarBindValue::Value(O::ApplicationWide(A::BigCounter(smi_v2::Counter64(*n)))),
    }
}

fn rasn_v2c(t: &V2cTrap) -> Vec<u8> {
    let mut bindings = vec![
        snmp_v2::VarBind { name: oid(SYS_UPTIME_OID), value: rasn_v2_value(&VarBindValue::TimeTicks(t.uptime_centiseconds)) },
        snmp_v2::VarBind { name: oid(SNMP_TRAP_OID_OID), value: rasn_v2_value(&VarBindValue::ObjectId(t.trap_oid.clone())) },
    ];
    for (n, v) in &t.varbinds {
        bindings.push(snmp_v2::VarBind { name: oid(n), value: rasn_v2_value(v) });
    }
    let pdu = snmp_v2::Pdu { request_id: t.request_id, error_status: 0, error_index: 0, variable_bindings: bindings };
    let msg = snmp_v2c::Message::<snmp_v2::Trap> { version: Integer::from(1), community: OctetString::from(t.community.clone()), data: snmp_v2::Trap(pdu) };
    ber::encode(&msg).unwrap()
}

#[test]
fn v2c_matches_rasn_for_every_value_type() {
    let t = V2cTrap {
        community: b"public".to_vec(),
        request_id: -1414684022,
        uptime_centiseconds: 4294967295,
        trap_oid: vec![1, 3, 6, 1, 6, 3, 1, 1, 5, 1],
        varbinds: vec![
            (vec![1, 3, 6, 1, 4, 1, 8072, 2, 3, 2, 1], VarBindValue::Integer(42)),
            (vec![1, 3, 6, 1], VarBindValue::Integer(-129)),
            (vec![1, 3, 6, 2], VarBindValue::Integer(i32::MIN)),
            (vec![1, 3, 6, 3], VarBindValue::Unsigned32(128)),
            (vec![1, 3, 6, 4], VarBindValue::TimeTicks(255)),
            (vec![1, 3, 6, 5], VarBindValue::IpAddress(Ipv4Addr::new(10, 0, 0, 1))),
            (vec![2, 999, 5], VarBindValue::ObjectId(vec![1, 3, 6, 1, 4, 1, 4294967295])),
            (vec![1, 3, 6, 7], VarBindValue::OctetString(vec![7u8; 300])),
            (vec![1, 3, 6, 8], VarBindValue::Null),
            (vec![1, 3, 6, 9], VarBindValue::Bits(vec![0xE0])),
            (vec![1, 3, 6, 10], VarBindValue::Counter64(u64::MAX)),
        ],
    };
    let ours = build_v2c_trap(&t).expect("encode");
    assert_eq!(hex::encode(&ours), hex::encode(rasn_v2c(&t)));
}

#[test]
fn v2c_bad_oid_reported() {
    let t = V2cTrap { community: b"c".to_vec(), request_id: 1, uptime_centiseconds: 0, trap_oid: vec![1], varbinds: vec![] };
    match build_v2c_trap(&t) {
        Err(Error::Encode(m)) => assert!(m.contains("Provided: [1]"), "{m}"),
        other => panic!("{other:?}"),
    }
}

#[test]
fn v1_matches_rasn() {
    let t = V1Trap {
        community: b"public".to_vec(),
        enterprise: vec![1, 3, 6, 1, 4, 1, 8072, 2, 3, 0, 1],
        agent_addr: Ipv4Addr::new(10, 0, 0, 1),
        generic: 6,
        specific: 17,
        uptime_centiseconds: 99999,
        varbinds: vec![(vec![1, 3, 6, 1, 4, 1, 8072, 2, 3, 2, 1], VarBindValue::Integer(7)), (vec![1,3,6,1], VarBindValue::Null)],
    };
    let ours = build_v1_trap(&t).unwrap();
    let trap = snmp_v1::Trap {
        enterprise: oid(&t.enterprise),
        agent_addr: smi_v1::NetworkAddress::Internet(smi_v1::IpAddress(rasn::types::FixedOctetString::from([10, 0, 0, 1]))),
        generic_trap: Integer::from(6),
        specific_trap: Integer::from(17),
        time_stamp: smi_v1::TimeTicks(99999),
        variable_bindings: vec![
            snmp_v1::VarBind { name: oid(&[1, 3, 6, 1, 4, 1, 8072, 2, 3, 2, 1]), value: smi_v1::ObjectSyntax::Simple(smi_v1::SimpleSyntax::Number(Integer::from(7))) },
            snmp_v1::VarBind { name: oid(&[1, 3, 6, 1]), value: smi_v1::ObjectSyntax::Simple(smi_v1::SimpleSyntax::Empty) },
        ],
    };
    let msg = snmp_v1::Message::<snmp_v1::Trap> { version: Integer::from(0), community: OctetString::from(t.community.clone()), data: trap };
    assert_eq!(hex::encode(&ours), hex::encode(ber::encode(&msg).unwrap()));
}

#[test]
fn v2c_trap_roundtrips() {
    let t = V2cTrap {
        community: b"public".to_vec(),
        request_id: 1414684022,
        uptime_centiseconds: 12345,
        trap_oid: vec![1, 3, 6, 1, 6, 3, 1, 1, 5, 1],
        varbinds: vec![(vec![1, 3, 6, 1, 4, 1, 8072, 2, 3, 2, 1], VarBindValue::Integer(42))],
    };
    let bytes = build_v2c_trap(&t).expect("encode v2c");
    let decoded: snmp_v2c::Message<snmp_v2::Trap> = ber::decode(&bytes).expect("decode v2c");
    assert_eq!(decoded.community.to_vec(), b"public".to_vec());
    let pdu = &decoded.data.0;
    assert_eq!(pdu.request_id, 1414684022);
    assert_eq!(pdu.error_status, 0);
    assert_eq!(pdu.error_index, 0);
    assert_eq!(pdu.variable_bindings.len(), 3);
    assert_eq!(pdu.variable_bindings[0].name.to_vec(), SYS_UPTIME_OID.to_vec());
    assert_eq!(pdu.variable_bindings[1].name.to_vec(), SNMP_TRAP_OID_OID.to_vec());
}

#[test]
fn v1_trap_roundtrips() {
    let t = V1Trap {
        community: b"public".to_vec(),
        enterprise: vec![1, 3, 6, 1, 4, 1, 3, 1, 1],
        agent_addr: Ipv4Addr::new(10, 0, 0, 1),
        generic: 6,
        specific: 17,
        uptime_centiseconds: 99999,
        varbinds: vec![(vec![1, 3, 6, 1, 4, 1, 8072, 2, 3, 2, 1], VarBindValue::Integer(7))],
    };
    let bytes = build_v1_trap(&t).expect("encode v1");
    let decoded: snmp_v1::Message<snmp_v1::Trap> = ber::decode(&bytes).expect("decode v1");
    assert_eq!(decoded.community.to_vec(), b"public".to_vec());
    let trap = &decoded.data;
    assert_eq!(trap.generic_trap, Integer::from(6));
    assert_eq!(trap.specific_trap, Integer::from(17));
    assert_eq!(trap.time_stamp.0, 99999);
    match &trap.agent_addr {
        smi_v1::NetworkAddress::Internet(ip) => assert_eq!(ip.0.as_ref(), &[10, 0, 0, 1]),
    }
}

#[test]
fn counter64_in_v1_rejected() {
    let t = V1Trap {
        community: b"public".to_vec(),
        enterprise: vec![1, 3, 6, 1, 4, 1, 3, 1, 1],
        agent_addr: Ipv4Addr::new(10, 0, 0, 1),
        generic: 6,
        specific: 1,
        uptime_centiseconds: 0,
        varbinds: vec![(vec![1, 3, 6, 1, 4, 1, 8072, 2, 3, 2, 1], VarBindValue::Counter64(42))],
    };
    let err = build_v1_trap(&t).unwrap_err();
    match err {
        Error::Encode(msg) => assert!(msg.contains("Counter64"), "got {msg}"),
        other => panic!("expected Encode, got {other:?}"),
    }
}

#[test]
fn v1_trap_decoded_fields_match_inputs() {
    let ours = V1Trap {
        community: b"public".to_vec(),
        enterprise: vec![1, 3, 6, 1, 4, 1, 8072, 2, 3, 0, 1],
        agent_addr: Ipv4Addr::new(10, 0, 0, 1),
        generic: 6,
        specific: 17,
        uptime_centiseconds: 99999,
        varbinds: vec![(vec![1, 3, 6, 1, 4, 1, 8072, 2, 3, 2, 1], VarBindValue::Integer(7))],
    };
    let our_bytes = build_v1_trap(&ours).expect("encode v1");
    let msg: snmp_v1::Message<snmp_v1::Trap> = ber::decode(&our_bytes).unwrap();
    let trap = &msg.data;
    assert_eq!(msg.community.to_vec(), b"public".to_vec());
    assert_eq!(trap.generic_trap, Integer::from(6));
    assert_eq!(trap.specific_trap, Integer::from(17));
    assert_eq!(trap.time_stamp.0, 99999);
    match &trap.agent_addr {
        smi_v1::NetworkAddress::Internet(ip) => assert_eq!(ip.0.as_ref(), &[10, 0, 0, 1]),
    }
    assert_eq!(trap.variable_bindings.len(), 1);
}

#[test]
fn bits_in_v1_rejected_first_in_order() {
    let mut t = V1Trap {
        community: b"public".to_vec(),
        enterprise: vec![1, 3, 6, 1, 4, 1, 3, 1, 1],
        agent_addr: Ipv4Addr::new(10, 0, 0, 1),
        generic: 6,
        specific: 1,
        uptime_centiseconds: 0,
        varbinds: vec![
            (vec![1, 3, 6, 1], VarBindValue::Bits(vec![0x80])),
            (vec![1, 3, 6, 2], VarBindValue::Counter64(42)),
        ],
    };
    match build_v1_trap(&t).unwrap_err() {
        Error::Encode(msg) => assert_eq!(msg, "BITS (type 'b') is not representable in SNMPv1; use -v 2c instead"),
        other => panic!("expected Encode, got {other:?}"),
    }
    t.varbinds.reverse();
    match build_v1_trap(&t).unwrap_err() {
        Error::Encode(msg) => assert_eq!(msg, "Counter64 (type 'U') is not representable in SNMPv1; use -v 2c instead"),
        other => panic!("expected Encode, got {other:?}"),
    }
}
