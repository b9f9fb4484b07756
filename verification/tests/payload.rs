use rasn::ber;
use rasn_snmp::{v1 as snmp_v1, v2 as snmp_v2, v2c as snmp_v2c, v3 as snmp_v3};
use snmptrap_rs::cli::{Cli, SecurityLevel, SnmpVersion};
use snmptrap_rs::error::Error;
use snmptrap_rs::net::Ipv4Addr;
use snmptrap_rs::payload::{
    build_payload, build_payload_with, build_v1_payload, build_v2c_payload, build_v3_payload,
    parse_trailing_varbinds, parse_uptime_or_default, process_uptime_seconds, resolve_v1_agent_addr,
    uptime_centiseconds_from_timevals, HostFacts, Nonces,
};
use snmptrap_rs::usm::{AuthProtocol, PrivProtocol};
use snmptrap_rs::varbind::VarBindValue;

fn egress_loopback() -> Result<Ipv4Addr, String> {
    Ok(Ipv4Addr::new(127, 0, 0, 1))
}

#[test]
fn v1_agent_addr_explicit_overrides() {
    let r = resolve_v1_agent_addr("203.0.113.5", Some(Ipv4Addr::new(198, 51, 100, 42)), &egress_loopback()).unwrap();
    assert_eq!(r, Ipv4Addr::new(203, 0, 113, 5));
}

#[test]
fn v1_agent_addr_empty_inherits_src_addr() {
    let r = resolve_v1_agent_addr("", Some(Ipv4Addr::new(198, 51, 100, 42)), &egress_loopback()).unwrap();
    assert_eq!(r, Ipv4Addr::new(198, 51, 100, 42));
}

#[test]
fn v1_agent_addr_empty_with_no_src_addr_falls_back_to_egress() {
    let r = resolve_v1_agent_addr("", None, &egress_loopback()).unwrap();
    assert!(r.is_loopback(), "got {r:?}");
}

fn strings(v: &[&str]) -> Vec<String> {
    v.iter().map(|s| s.to_string()).collect()
}

fn cli(version: SnmpVersion, args: &[&str]) -> Cli {
    Cli {
        version,
        community: "public".to_string(),
        retries: 0,
        timeout: 1,
        src_addr: None,
        src_port: None,
        debug_print_pdu: false,
        agent: "127.0.0.1".to_string(),
        trap_args: strings(args),
        security_level: None,
        user_name: None,
        auth_protocol: None,
        auth_password: None,
        priv_protocol: None,
        priv_password: None,
        context_engine_id: None,
        authoritative_engine_id: None,
        context_name: None,
    }
}

fn make_cli_v2c(trailing: &[&str]) -> Cli {
    let mut args = vec!["12345", "1.3.6.1.6.3.1.1.5.1"];
    args.extend_from_slice(trailing);
    cli(SnmpVersion::V2c, &args)
}

fn host() -> HostFacts {
    HostFacts {
        uptime_centiseconds: Ok(777),
        egress_ipv4: egress_loopback(),
        interfaces: vec![("eth0".to_string(), Some("de:ad:be:ef:12:34\n".to_string()))],
        hostname: Some("host42".to_string()),
        elapsed_secs: 5,
    }
}

#[test]
fn v2c_rejects_user_passed_sys_uptime_in_trailing_varbinds() {
    let cli = make_cli_v2c(&["1.3.6.1.2.1.1.3.0", "t", "1000"]);
    let err = build_v2c_payload(&cli, &Ok(0), 1).unwrap_err();
    match err {
        Error::Usage(msg) => assert!(msg.contains("sysUpTime.0") && msg.contains("auto-prepended"), "got {msg}"),
        other => panic!("expected Usage, got {other:?}"),
    }
}

#[test]
fn v2c_rejects_user_passed_snmp_trap_oid_in_trailing_varbinds() {
    let cli = make_cli_v2c(&["1.3.6.1.6.3.1.1.4.1.0", "o", "1.3.6.1.6.3.1.1.5.2"]);
    let err = build_v2c_payload(&cli, &Ok(0), 1).unwrap_err();
    match err {
        Error::Usage(msg) => assert!(msg.contains("snmpTrapOID.0") && msg.contains("auto-prepended"), "got {msg}"),
        other => panic!("expected Usage, got {other:?}"),
    }
}

#[test]
fn v2c_accepts_unrelated_trailing_varbinds() {
    let cli = make_cli_v2c(&["1.3.6.1.4.1.8072.2.3.2.1", "i", "42"]);
    let bytes = build_v2c_payload(&cli, &Ok(0), 1).expect("should encode");
    assert!(!bytes.is_empty());
}

// ---- beyond the original's own tests ----

#[test]
fn v2c_payload_decodes_with_host_uptime_default() {
    let c = cli(SnmpVersion::V2c, &["", "1.3.6.1.6.3.1.1.5.1", "1.3.6.1.4.1.8072.2.3.2.1", "s", "hi"]);
    let bytes = build_v2c_payload(&c, &Ok(4242), 99).unwrap();
    let decoded: snmp_v2c::Message<snmp_v2::Trap> = ber::decode(&bytes).unwrap();
    assert_eq!(decoded.community.to_vec(), b"public".to_vec());
    assert_eq!(decoded.data.0.request_id, 99);
    assert_eq!(decoded.data.0.variable_bindings.len(), 3);
    let e = build_v2c_payload(&c, &Err("no /proc/uptime".to_string()), 99).unwrap_err();
    assert!(matches!(e, Error::Other(m) if m == "no /proc/uptime"));
}

#[test]
fn positional_errors() {
    let e = build_v2c_payload(&cli(SnmpVersion::V2c, &["1"]), &Ok(0), 1).unwrap_err();
    assert!(matches!(e, Error::Usage(m) if m == "v2c trap requires at minimum: <UPTIME> <TRAP-OID> [OID TYPE VALUE]..."));
    let e = build_v2c_payload(&cli(SnmpVersion::V2c, &["x", "1.3"]), &Ok(0), 1).unwrap_err();
    assert!(matches!(e, Error::Usage(m) if m == "invalid uptime 'x': invalid digit found in string"));
    let e = parse_trailing_varbinds(&strings(&["1.3.6", "i"])).unwrap_err();
    assert!(matches!(e, Error::Usage(m) if m == "trailing var-binds must come in OID TYPE VALUE triplets; got 2 extra args"));
    let e = parse_trailing_varbinds(&strings(&["1.3.6", "", "1"])).unwrap_err();
    assert!(matches!(e, Error::Usage(m) if m == "type letter for OID '1.3.6' is empty"));
    let e = parse_trailing_varbinds(&strings(&["1.3.6", "ii", "1"])).unwrap_err();
    assert!(matches!(e, Error::Usage(m) if m == "type letter for OID '1.3.6' must be a single character, got 'ii'"));
    let e = parse_trailing_varbinds(&strings(&["1.3.6", "q", "1"])).unwrap_err();
    assert!(matches!(e, Error::Usage(m) if m == "unknown type letter 'q' after OID '1.3.6'"));
    let e = parse_trailing_varbinds(&strings(&["1.3.6", "u", "-1"])).unwrap_err();
    assert!(matches!(e, Error::Usage(m) if m == "bad value for type 'u' (OID '1.3.6'): expected unsigned 32-bit decimal, got '-1': invalid digit found in string"));
    let ok = parse_trailing_varbinds(&strings(&["1.3.6", "n", "", "1.3.7", "U", "5"])).unwrap();
    assert_eq!(ok, vec![(vec![1, 3, 6], VarBindValue::Null), (vec![1, 3, 7], VarBindValue::Counter64(5))]);
    assert_eq!(parse_uptime_or_default("", &Ok(5)).unwrap(), 5);
    assert_eq!(parse_uptime_or_default("4294967295", &Ok(5)).unwrap(), u32::MAX);
}

#[test]
fn v1_payload_fields_and_errors() {
    let c = cli(SnmpVersion::V1, &["", "", "6", "17", "99999", "1.3.6.1.4.1.8072.2.3.2.1", "i", "42"]);
    let bytes = build_v1_payload(&c, &Ok(0), &egress_loopback()).unwrap();
    let decoded: snmp_v1::Message<snmp_v1::Trap> = ber::decode(&bytes).unwrap();
    assert_eq!(decoded.data.enterprise.to_vec(), vec![1, 3, 6, 1, 4, 1, 3, 1, 1]);
    assert_eq!(decoded.data.time_stamp.0, 99999);
    let e = build_v1_payload(&cli(SnmpVersion::V1, &["", "", "7", "0", ""]), &Ok(0), &egress_loopback()).unwrap_err();
    assert!(matches!(e, Error::Usage(m) if m == "generic-trap must be 0..=6, got 7"));
    let e = build_v1_payload(&cli(SnmpVersion::V1, &["", "", "x", "0", ""]), &Ok(0), &egress_loopback()).unwrap_err();
    assert!(matches!(e, Error::Usage(m) if m == "invalid generic-trap 'x': invalid digit found in string"));
    let e = build_v1_payload(&cli(SnmpVersion::V1, &["", "", "6", "-3", ""]), &Ok(0), &egress_loopback()).unwrap_err();
    assert!(matches!(e, Error::Usage(m) if m == "specific-trap must be non-negative (RFC 1157), got -3"));
    let e = build_v1_payload(&cli(SnmpVersion::V1, &["", "10.0.0", "6", "0", ""]), &Ok(0), &egress_loopback()).unwrap_err();
    assert!(matches!(e, Error::Usage(m) if m == "v1 agent-addr positional must be a dotted-quad IPv4 (or empty), got '10.0.0'"));
    let e = build_v1_payload(&cli(SnmpVersion::V1, &["", "", "6", "0", "", "1.3.6", "U", "1"]), &Ok(0), &egress_loopback()).unwrap_err();
    assert!(matches!(e, Error::Encode(m) if m.contains("Counter64")));
    let e = build_v1_payload(&cli(SnmpVersion::V1, &["", "", "6", "0"]), &Ok(0), &egress_loopback()).unwrap_err();
    assert!(matches!(e, Error::Usage(m) if m.starts_with("v1 trap requires:")));
    let e = build_v1_payload(&cli(SnmpVersion::V1, &["", "", "6", "0", ""]), &Ok(0), &Err("no route".to_string())).unwrap_err();
    assert!(matches!(e, Error::Other(m) if m == "no route"));
}

fn v3_cli(level: SecurityLevel) -> Cli {
    let mut c = cli(SnmpVersion::V3, &["", "1.3.6.1.6.3.1.1.5.1"]);
    c.user_name = Some("alice".to_string());
    c.security_level = Some(level);
    c.auth_protocol = Some(AuthProtocol::Sha256);
    c.auth_password = Some("authpassword1234".to_string());
    c.priv_protocol = Some(PrivProtocol::Aes128);
    c.priv_password = Some("privpassword1234".to_string());
    c
}

fn nonces() -> Nonces {
    Nonces { request_id: 5, msg_id: 6, salt: 7 }
}

#[test]
fn v3_payload_uses_the_cascade_and_levels() {
    let bytes = build_v3_payload(&v3_cli(SecurityLevel::NoAuthNoPriv), &host(), nonces()).unwrap();
    let msg: snmp_v3::Message = ber::decode(&bytes).unwrap();
    assert_eq!(msg.global_data.flags.as_ref(), &[4]);
    let usm: snmp_v3::USMSecurityParameters = ber::decode(&msg.security_parameters).unwrap();
    assert_eq!(usm.authoritative_engine_id.to_vec(), vec![0x80, 0x00, 0xF0, 0x45, 0x03, 0xDE, 0xAD, 0xBE, 0xEF, 0x12, 0x34]);
    assert_eq!(usm.authoritative_engine_time, 5.into());
    assert_eq!(usm.user_name.to_vec(), b"alice".to_vec());

    let mut c = v3_cli(SecurityLevel::AuthPriv);
    c.src_addr = Some("198.51.100.42".to_string());
    let bytes = build_v3_payload(&c, &host(), nonces()).unwrap();
    let msg: snmp_v3::Message = ber::decode(&bytes).unwrap();
    assert_eq!(msg.global_data.flags.as_ref(), &[7]);
    let usm: snmp_v3::USMSecurityParameters = ber::decode(&msg.security_parameters).unwrap();
    assert_eq!(usm.authoritative_engine_id.to_vec(), vec![0x80, 0x00, 0xF0, 0x45, 0x01, 0xC6, 0x33, 0x64, 0x2A]);
    assert_eq!(usm.privacy_parameters.to_vec(), 7u64.to_be_bytes().to_vec());
    assert_eq!(usm.authentication_parameters.len(), 24);
}

#[test]
fn v3_payload_errors() {
    let mut c = v3_cli(SecurityLevel::AuthNoPriv);
    c.authoritative_engine_id = Some("xyz".to_string());
    let e = build_v3_payload(&c, &host(), nonces()).unwrap_err();
    assert!(matches!(e, Error::Usage(m) if m == "--authoritative-engine-id (-E): engine-ID hex string has odd length (3 chars)"));
    let mut c = v3_cli(SecurityLevel::AuthNoPriv);
    c.context_engine_id = Some("0102".to_string());
    let e = build_v3_payload(&c, &host(), nonces()).unwrap_err();
    assert!(matches!(e, Error::Usage(m) if m == "--context-engine-id (-e): engine-ID is 2 octets long, RFC 3411 §5 requires at least 5"));
    let mut c = v3_cli(SecurityLevel::AuthPriv);
    c.auth_protocol = Some(AuthProtocol::Sha1);
    c.priv_protocol = Some(PrivProtocol::Aes256);
    let e = build_v3_payload(&c, &host(), nonces()).unwrap_err();
    assert!(matches!(e, Error::Usage(m) if m.contains("SHA-1") && m.contains("AES-256")));
    let e = build_v3_payload(&cli(SnmpVersion::V3, &["1"]), &host(), nonces()).unwrap_err();
    assert!(matches!(e, Error::Usage(m) if m.starts_with("v3 trap requires at minimum")));
}

#[test]
fn payload_dispatch_and_engine_time_cap() {
    let c = make_cli_v2c(&[]);
    let a = build_payload_with(&c, &host(), nonces()).unwrap();
    assert_eq!(a, build_v2c_payload(&c, &Ok(777), 5).unwrap());
    assert!(build_payload(&c, &host()).is_ok());
    assert_eq!(process_uptime_seconds(5), 5);
    assert_eq!(process_uptime_seconds(u64::MAX), i32::MAX as u32);
}

#[test]
fn uptime_from_timevals() {
    assert_eq!(uptime_centiseconds_from_timevals(100, 500_000, 90, 0), 1050);
    assert_eq!(uptime_centiseconds_from_timevals(100, 0, 99, 990_000), 1);
    assert_eq!(uptime_centiseconds_from_timevals(99, 0, 100, 0), 0);
    assert_eq!(uptime_centiseconds_from_timevals(i64::MAX, 0, 0, 0), u32::MAX);
}
