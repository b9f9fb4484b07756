use aes::cipher::KeyIvInit;
use rasn::ber;
use rasn::types::{Integer, OctetString};
use rasn_snmp::{v2 as snmp_v2, v3 as snmp_v3};
use snmptrap_rs::engine::{resolve, EngineId};
use snmptrap_rs::net::parse_ipv4;
use snmptrap_rs::pdu::{fresh_request_id, V2cTrap};
use snmptrap_rs::usm::{auth_sign, AuthProtocol, PrivProtocol};
use snmptrap_rs::v3::{
    build_v3_trap_message, fresh_msg_id, V3Security, V3TrapMessage, FLAG_AUTH, FLAG_PRIV,
    FLAG_REPORTABLE, MSG_VERSION_V3, SECURITY_MODEL_USM,
};
use snmptrap_rs::varbind::VarBindValue;

const SYS_UPTIME_OID: &[u32] = &[1, 3, 6, 1, 2, 1, 1, 3, 0];
const SNMP_TRAP_OID_OID: &[u32] = &[1, 3, 6, 1, 6, 3, 1, 1, 4, 1, 0];

fn fixture_engine_id_v3() -> EngineId {
    EngineId::parse_user_input("80001f88010203040506").unwrap()
}

fn fixture_trap() -> V2cTrap {
    V2cTrap {
        community: Vec::new(),
        request_id: fresh_request_id(),
        uptime_centiseconds: 12345,
        trap_oid: vec![1, 3, 6, 1, 6, 3, 1, 1, 5, 1],
        varbinds: vec![(vec![1, 3, 6, 1, 4, 1, 8072, 2, 3, 2, 1], VarBindValue::Integer(42))],
    }
}

fn fixture_no_auth() -> V3TrapMessage {
    let eid = fixture_engine_id_v3();
    V3TrapMessage {
        authoritative_engine_id: eid.clone(),
        context_engine_id: eid,
        context_name: Vec::new(),
        user_name: b"testuser".to_vec(),
        engine_boots: 1,
        engine_time: 100,
        msg_id: 0xCAFEBABE_u32 as i32 & 0x7FFF_FFFF,
        security: V3Security::NoAuthNoPriv,
        trap: fixture_trap(),
    }
}

fn decode_message(bytes: &[u8]) -> snmp_v3::Message {
    ber::decode(bytes).expect("v3 message decodes")
}

fn decode_usm_params(msg: &snmp_v3::Message) -> snmp_v3::USMSecurityParameters {
    ber::decode(&msg.security_parameters).expect("USM params decode")
}

#[test]
fn no_auth_no_priv_round_trip() {
    let m = fixture_no_auth();
    let bytes = build_v3_trap_message(&m).unwrap();
    let msg = decode_message(&bytes);
    assert_eq!(msg.version, Integer::from(MSG_VERSION_V3));
    assert_eq!(msg.global_data.security_model, Integer::from(SECURITY_MODEL_USM));
    assert_eq!(msg.global_data.flags.as_ref(), &[FLAG_REPORTABLE]);
    let usm = decode_usm_params(&msg);
    assert_eq!(usm.authoritative_engine_id.to_vec(), m.authoritative_engine_id.as_bytes().to_vec());
    assert_eq!(usm.user_name.to_vec(), b"testuser".to_vec());
    assert!(usm.authentication_parameters.is_empty());
    assert!(usm.privacy_parameters.is_empty());
    match msg.scoped_data {
        snmp_v3::ScopedPduData::CleartextPdu(scoped) => {
            assert_eq!(scoped.engine_id.to_vec(), m.authoritative_engine_id.as_bytes().to_vec());
            match scoped.data {
                snmp_v2::Pdus::Trap(trap) => {
                    let bindings = &trap.0.variable_bindings;
                    assert_eq!(bindings.len(), 3);
                    assert_eq!(bindings[0].name.to_vec(), SYS_UPTIME_OID.to_vec());
                    assert_eq!(bindings[1].name.to_vec(), SNMP_TRAP_OID_OID.to_vec());
                }
                other => panic!("expected Trap PDU, got {other:?}"),
            }
        }
        other => panic!("expected CleartextPdu, got {other:?}"),
    }
}

#[test]
fn auth_no_priv_sha256_hmac_verifies() {
    let mut m = fixture_no_auth();
    let auth_key = vec![0xAAu8; AuthProtocol::Sha256.digest_len()];
    m.security = V3Security::AuthNoPriv { proto: AuthProtocol::Sha256, auth_key: auth_key.clone() };
    let bytes = build_v3_trap_message(&m).unwrap();
    let msg = decode_message(&bytes);
    assert_eq!(msg.global_data.flags.as_ref(), &[FLAG_REPORTABLE | FLAG_AUTH]);
    let usm = decode_usm_params(&msg);
    let received_tag = usm.authentication_parameters.to_vec();
    assert_eq!(received_tag.len(), AuthProtocol::Sha256.auth_param_len());
    let zero_tag = vec![0u8; AuthProtocol::Sha256.auth_param_len()];
    let usm_zeroed = snmp_v3::USMSecurityParameters {
        authentication_parameters: OctetString::from(zero_tag),
        ..usm.clone()
    };
    let usm_zeroed_bytes = ber::encode(&usm_zeroed).unwrap();
    let msg_zeroed = snmp_v3::Message { security_parameters: OctetString::from(usm_zeroed_bytes), ..msg.clone() };
    let zeroed_message_bytes = ber::encode(&msg_zeroed).unwrap();
    let recomputed = auth_sign(&zeroed_message_bytes, &auth_key, AuthProtocol::Sha256);
    assert_eq!(recomputed, received_tag, "HMAC tag must verify");
}

#[test]
fn auth_priv_sha256_aes128_round_trip() {
    let mut m = fixture_no_auth();
    let auth_key = vec![0x11u8; AuthProtocol::Sha256.digest_len()];
    let priv_key = vec![0x22u8; PrivProtocol::Aes128.key_len()];
    let salt = 0xDEADBEEF_CAFEBABE_u64;
    m.security = V3Security::AuthPriv {
        auth_proto: AuthProtocol::Sha256,
        auth_key,
        priv_proto: PrivProtocol::Aes128,
        priv_key: priv_key.clone(),
        salt,
    };
    let bytes = build_v3_trap_message(&m).unwrap();
    let msg = decode_message(&bytes);
    assert_eq!(msg.global_data.flags.as_ref(), &[FLAG_REPORTABLE | FLAG_AUTH | FLAG_PRIV]);
    let usm = decode_usm_params(&msg);
    assert_eq!(usm.privacy_parameters.to_vec(), salt.to_be_bytes().to_vec());
    let encrypted = match &msg.scoped_data {
        snmp_v3::ScopedPduData::EncryptedPdu(bytes) => bytes.to_vec(),
        other => panic!("expected EncryptedPdu, got {other:?}"),
    };
    let recovered_salt = {
        let pp = usm.privacy_parameters.to_vec();
        assert_eq!(pp.len(), 8);
        let mut buf = [0u8; 8];
        buf.copy_from_slice(&pp);
        u64::from_be_bytes(buf)
    };
    assert_eq!(recovered_salt, salt);
    let mut iv = [0u8; 16];
    iv[0..4].copy_from_slice(&m.engine_boots.to_be_bytes());
    iv[4..8].copy_from_slice(&m.engine_time.to_be_bytes());
    iv[8..16].copy_from_slice(&salt.to_be_bytes());
    let mut buf = encrypted;
    cfb_mode::Decryptor::<aes::Aes128>::new_from_slices(&priv_key, &iv).unwrap().decrypt(&mut buf);
    let scoped: snmp_v3::ScopedPdu = ber::decode(&buf).expect("scopedPDU decodes");
    assert_eq!(scoped.engine_id.to_vec(), m.context_engine_id.as_bytes().to_vec());
    match scoped.data {
        snmp_v2::Pdus::Trap(trap) => {
            let bindings = &trap.0.variable_bindings;
            assert_eq!(bindings.len(), 3);
            assert_eq!(bindings[0].name.to_vec(), SYS_UPTIME_OID.to_vec());
            assert_eq!(bindings[1].name.to_vec(), SNMP_TRAP_OID_OID.to_vec());
        }
        other => panic!("expected Trap PDU, got {other:?}"),
    }
}

#[test]
fn auth_priv_with_src_addr_engine_id_coherence() {
    let src_addr = parse_ipv4("198.51.100.42").unwrap();
    let derived = resolve(None, Some(src_addr), &Vec::new(), &None);
    assert_eq!(
        derived.as_bytes(),
        &[0x80, 0x00, 0xF0, 0x45, 0x01, 0xC6, 0x33, 0x64, 0x2A],
        "engine::resolve cascade must return format-1 (IPv4) when -E is unset and --src-addr is set"
    );
    let mut m = fixture_no_auth();
    m.authoritative_engine_id = derived.clone();
    m.context_engine_id = derived.clone();
    m.security = V3Security::AuthPriv {
        auth_proto: AuthProtocol::Sha256,
        auth_key: vec![0x33u8; AuthProtocol::Sha256.digest_len()],
        priv_proto: PrivProtocol::Aes128,
        priv_key: vec![0x44u8; PrivProtocol::Aes128.key_len()],
        salt: 0,
    };
    let bytes = build_v3_trap_message(&m).unwrap();
    let msg = decode_message(&bytes);
    let usm = decode_usm_params(&msg);
    assert_eq!(
        usm.authoritative_engine_id.to_vec(),
        vec![0x80, 0x00, 0xF0, 0x45, 0x01, 0xC6, 0x33, 0x64, 0x2A]
    );
}

#[test]
fn flag_byte_encoding() {
    assert_eq!(V3Security::NoAuthNoPriv.flag_byte(), 0b100);
    assert_eq!(
        V3Security::AuthNoPriv { proto: AuthProtocol::Sha256, auth_key: vec![0u8; 32] }.flag_byte(),
        0b101
    );
    assert_eq!(
        V3Security::AuthPriv {
            auth_proto: AuthProtocol::Sha256,
            auth_key: vec![0u8; 32],
            priv_proto: PrivProtocol::Aes128,
            priv_key: vec![0u8; 16],
            salt: 0,
        }
        .flag_byte(),
        0b111
    );
}

#[test]
fn fresh_msg_id_is_positive() {
    for _ in 0..32 {
        let id = fresh_msg_id();
        assert!(id > 0);
    }
}

// ---- beyond the original's own tests ----

#[test]
fn signed_message_matches_rasn_reencoding() {
    // The whole message, re-encoded by rasn from what it decodes to, is
    // byte-identical: the encoding is canonical BER.
    let mut m = fixture_no_auth();
    m.trap.request_id = 7;
    m.security = V3Security::AuthNoPriv { proto: AuthProtocol::Sha1, auth_key: vec![0x5Au8; 20] };
    let bytes = build_v3_trap_message(&m).unwrap();
    let msg = decode_message(&bytes);
    assert_eq!(ber::encode(&msg).unwrap(), bytes);
}

#[test]
fn tag_differs_only_at_the_tag_positions() {
    let mut m = fixture_no_auth();
    let plain = build_v3_trap_message(&m).unwrap();
    m.security = V3Security::AuthNoPriv { proto: AuthProtocol::Sha1, auth_key: vec![1u8; 20] };
    let a = build_v3_trap_message(&m).unwrap();
    m.security = V3Security::AuthNoPriv { proto: AuthProtocol::Sha1, auth_key: vec![2u8; 20] };
    let b = build_v3_trap_message(&m).unwrap();
    assert_eq!(a.len(), b.len());
    let differing: Vec<usize> = (0..a.len()).filter(|&i| a[i] != b[i]).collect();
    assert!(!differing.is_empty());
    assert!(differing.last().unwrap() - differing.first().unwrap() < 12);
    assert!(plain.len() < a.len());
}

#[test]
fn bad_trap_oid_is_an_encoding_error() {
    let mut m = fixture_no_auth();
    m.trap.trap_oid = vec![7, 1];
    match build_v3_trap_message(&m) {
        Err(snmptrap_rs::error::Error::Encode(msg)) => assert!(msg.contains("Provided: [7, 1]"), "{msg}"),
        other => panic!("{other:?}"),
    }
}
