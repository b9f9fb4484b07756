use snmptrap_rs::cli::{split_agent, Cli, SecurityLevel, SnmpVersion};
use snmptrap_rs::error::Error;
use snmptrap_rs::net::Ipv4Addr;
use snmptrap_rs::usm::AuthProtocol;

fn base(version: SnmpVersion, community: &str) -> Cli {
    Cli {
        version,
        community: community.to_string(),
        retries: 0,
        timeout: 1,
        src_addr: None,
        src_port: None,
        debug_print_pdu: false,
        agent: "127.0.0.1".to_string(),
        trap_args: vec![String::new(), "1.3.6.1.6.3.1.1.5.1".to_string()],
        security_level: None,
        user_name: None,
        auth_protocol: None,
        auth_password: None,
        priv_protocol: None,
        priv_password: None,
        context_engine_id: None,
        authoritative_engine_id: None,
        context_name: None,
    }
}

#[test]
fn minimal_v2c_invocation_accepted() {
    let cli = base(SnmpVersion::V2c, "public").validate(false).unwrap();
    assert_eq!(cli.version, SnmpVersion::V2c);
    assert_eq!(cli.community, "public");
    assert_eq!(cli.agent, "127.0.0.1");
}

#[test]
fn minimal_v1_invocation_accepted() {
    let mut c = base(SnmpVersion::V1, "public");
    c.trap_args = vec![String::new(), String::new(), "6".to_string(), "0".to_string(), String::new()];
    let cli = c.validate(false).unwrap();
    assert_eq!(cli.version, SnmpVersion::V1);
    assert_eq!(cli.trap_args.len(), 5);
}

#[test]
fn ipv6_in_src_addr_rejected() {
    let mut c = base(SnmpVersion::V2c, "public");
    c.src_addr = Some("2001:db8::1".to_string());
    match c.validate(true).unwrap_err() {
        Error::Usage(msg) => assert!(msg.contains("IPv6") || msg.contains("IPv4 only"), "msg: {msg}"),
        other => panic!("expected Usage, got {other:?}"),
    }
}

#[test]
fn empty_community_rejected() {
    match base(SnmpVersion::V2c, "").validate(false).unwrap_err() {
        Error::Usage(msg) => assert!(msg.contains("community"), "msg: {msg}"),
        other => panic!("expected Usage, got {other:?}"),
    }
}

#[test]
fn agent_resolution_accepts_host_only() {
    let (h, p) = split_agent("127.0.0.1").unwrap();
    assert_eq!(h, "127.0.0.1");
    assert_eq!(p, 162);
}

#[test]
fn agent_resolution_accepts_host_port() {
    let (_, p) = split_agent("127.0.0.1:1620").unwrap();
    assert_eq!(p, 1620);
}

#[test]
fn agent_resolution_accepts_udp_prefix() {
    let (h, p) = split_agent("udp:127.0.0.1:1620").unwrap();
    assert_eq!(h, "127.0.0.1");
    assert_eq!(p, 1620);
}

#[test]
fn ipv4_in_src_addr_accepted() {
    let mut c = base(SnmpVersion::V2c, "public");
    c.src_addr = Some("198.51.100.42".to_string());
    let cli = c.validate(false).unwrap();
    assert_eq!(cli.src_addr_v4(), Some(Ipv4Addr::new(198, 51, 100, 42)));
}

#[test]
fn invalid_src_addr_rejected() {
    let mut c = base(SnmpVersion::V2c, "public");
    c.src_addr = Some("not-an-ip".to_string());
    match c.validate(false).unwrap_err() {
        Error::Usage(msg) => assert!(msg.contains("--src-addr"), "msg: {msg}"),
        other => panic!("expected Usage, got {other:?}"),
    }
}

// ---- beyond the original's own tests ----

#[test]
fn agent_errors() {
    match split_agent("[::1]:162").unwrap_err() {
        Error::Usage(m) => assert_eq!(m, "AGENT '[::1]:162' looks like IPv6; only IPv4 destinations are supported"),
        other => panic!("{other:?}"),
    }
    assert!(matches!(split_agent("udp:a:b:c"), Err(Error::Usage(_))));
    match split_agent("host:99999").unwrap_err() {
        Error::Usage(m) => assert_eq!(m, "invalid port in AGENT: host:99999"),
        other => panic!("{other:?}"),
    }
    assert_eq!(split_agent(":162").unwrap(), (":162".to_string(), 162));
    assert_eq!(split_agent("example.org").unwrap(), ("example.org".to_string(), 162));
}

#[test]
fn version_and_level_names() {
    assert_eq!(SnmpVersion::parse("2c").unwrap(), SnmpVersion::V2c);
    assert_eq!(SnmpVersion::parse("3").unwrap(), SnmpVersion::V3);
    assert!(matches!(SnmpVersion::parse("2"), Err(Error::Usage(_))));
    assert_eq!(SecurityLevel::parse("authPriv").unwrap(), SecurityLevel::AuthPriv);
    assert_eq!(SecurityLevel::parse("NOAUTHNOPRIV").unwrap(), SecurityLevel::NoAuthNoPriv);
    assert!(SecurityLevel::parse("priv").is_err());
}

#[test]
fn option_cross_checks() {
    let mut c = base(SnmpVersion::V2c, "public");
    c.user_name = Some("alice".to_string());
    assert!(matches!(c.validate(false), Err(Error::Usage(m)) if m == "-u is only valid with -v 3"));
    let mut c = base(SnmpVersion::V2c, "public");
    c.timeout = 0;
    assert!(matches!(c.validate(false), Err(Error::Usage(m)) if m == "--timeout must be > 0 (in seconds)"));
    let mut c = base(SnmpVersion::V2c, "public");
    c.src_port = Some(0);
    assert!(matches!(c.validate(false), Err(Error::Usage(m)) if m.starts_with("--src-port 0 is not allowed")));

    let c = base(SnmpVersion::V3, "");
    assert!(matches!(c.validate(false), Err(Error::Usage(m)) if m == "-u <USER> is required with -v 3"));
    let mut c = base(SnmpVersion::V3, "");
    c.user_name = Some("alice".to_string());
    let ok = c.validate(false).unwrap();
    assert_eq!(ok.security_level, Some(SecurityLevel::NoAuthNoPriv));
    let mut c = base(SnmpVersion::V3, "");
    c.user_name = Some("alice".to_string());
    c.security_level = Some(SecurityLevel::AuthNoPriv);
    c.auth_protocol = Some(AuthProtocol::Sha256);
    assert!(matches!(c.validate(false), Err(Error::Usage(m)) if m == "-A <AUTH-PASS> is required when -a is set"));
    let mut c = base(SnmpVersion::V3, "");
    c.user_name = Some("alice".to_string());
    c.security_level = Some(SecurityLevel::AuthNoPriv);
    c.auth_protocol = Some(AuthProtocol::Sha256);
    c.auth_password = Some("short".to_string());
    assert!(matches!(c.validate(false), Err(Error::Usage(m)) if m == "-A: USM password must be at least 8 characters (RFC 3414 §11.2); got 5"));
}
