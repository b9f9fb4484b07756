use snmptrap_rs::engine::{
    host_mac, is_physical_prefix, is_virtual_interface, parse_mac_text, resolve, EngineId,
    EngineIdParseError, FORMAT_IPV4, MAX_ENGINE_ID, MAX_PAYLOAD,
};
use snmptrap_rs::net::{parse_ipv4, Ipv4Addr};

fn ip(s: &str) -> Ipv4Addr {
    parse_ipv4(s).unwrap()
}

#[test]
fn pen_prefix_bytes() {
    let mut buf = Vec::new();
    EngineId::push_pen_prefix(&mut buf);
    assert_eq!(buf, vec![0x80, 0x00, 0xF0, 0x45]);
}

#[test]
fn from_ipv4_layout() {
    let eid = EngineId::from_ipv4(ip("198.51.100.42"));
    assert_eq!(eid.as_bytes(), &[0x80, 0x00, 0xF0, 0x45, 0x01, 0xC6, 0x33, 0x64, 0x2A]);
    assert_eq!(eid.len(), 9);
}

#[test]
fn from_mac_layout() {
    let eid = EngineId::from_mac([0xDE, 0xAD, 0xBE, 0xEF, 0x12, 0x34]);
    assert_eq!(
        eid.as_bytes(),
        &[0x80, 0x00, 0xF0, 0x45, 0x03, 0xDE, 0xAD, 0xBE, 0xEF, 0x12, 0x34]
    );
    assert_eq!(eid.len(), 11);
}

#[test]
fn from_text_layout() {
    let eid = EngineId::from_text("host42");
    assert_eq!(
        eid.as_bytes(),
        &[0x80, 0x00, 0xF0, 0x45, 0x04, b'h', b'o', b's', b't', b'4', b'2']
    );
}

#[test]
fn from_text_truncates_to_max_payload() {
    let long = "a".repeat(MAX_PAYLOAD + 10);
    let eid = EngineId::from_text(&long);
    assert_eq!(eid.len(), 5 + MAX_PAYLOAD);
}

#[test]
fn from_octets_layout() {
    let eid = EngineId::from_octets(&[0x01, 0x02, 0x03]);
    assert_eq!(eid.as_bytes(), &[0x80, 0x00, 0xF0, 0x45, 0x05, 0x01, 0x02, 0x03]);
}

#[test]
fn parse_user_input_plain_hex() {
    let eid = EngineId::parse_user_input("80001f88010203").unwrap();
    assert_eq!(eid.as_bytes(), &[0x80, 0x00, 0x1F, 0x88, 0x01, 0x02, 0x03]);
}

#[test]
fn parse_user_input_with_0x_prefix() {
    let eid = EngineId::parse_user_input("0x80001f88010203").unwrap();
    assert_eq!(eid.as_bytes(), &[0x80, 0x00, 0x1F, 0x88, 0x01, 0x02, 0x03]);
}

#[test]
fn parse_user_input_with_uppercase_0x_prefix() {
    let eid = EngineId::parse_user_input("0X80001F8842").unwrap();
    assert_eq!(eid.as_bytes(), &[0x80, 0x00, 0x1F, 0x88, 0x42]);
}

#[test]
fn parse_user_input_with_colon_separators() {
    let eid = EngineId::parse_user_input("80:00:1f:88:01:02").unwrap();
    assert_eq!(eid.as_bytes(), &[0x80, 0x00, 0x1F, 0x88, 0x01, 0x02]);
}

#[test]
fn parse_user_input_with_whitespace() {
    let eid = EngineId::parse_user_input("80 00 1f 88 42").unwrap();
    assert_eq!(eid.as_bytes(), &[0x80, 0x00, 0x1F, 0x88, 0x42]);
}

#[test]
fn parse_user_input_rejects_empty() {
    assert!(matches!(EngineId::parse_user_input(""), Err(EngineIdParseError::Empty)));
    assert!(matches!(EngineId::parse_user_input("   "), Err(EngineIdParseError::Empty)));
}

#[test]
fn parse_user_input_rejects_odd_length() {
    assert!(matches!(
        EngineId::parse_user_input("abc"),
        Err(EngineIdParseError::OddLength { got: 3 })
    ));
}

#[test]
fn parse_user_input_rejects_garbage() {
    assert!(matches!(
        EngineId::parse_user_input("zzzz"),
        Err(EngineIdParseError::BadHex { .. })
    ));
}

#[test]
fn parse_user_input_rejects_too_long() {
    let s: String = (0..50).map(|_| "ab").collect();
    assert!(matches!(
        EngineId::parse_user_input(&s),
        Err(EngineIdParseError::TooLong { got: 50, max: 32 })
    ));
}

#[test]
fn parse_user_input_rejects_too_short() {
    assert!(matches!(
        EngineId::parse_user_input("01020304"),
        Err(EngineIdParseError::TooShort { got: 4, min: 5 })
    ));
}

#[test]
fn parse_user_input_min_length_accepted() {
    let eid = EngineId::parse_user_input("0102030405").unwrap();
    assert_eq!(eid.as_bytes(), &[0x01, 0x02, 0x03, 0x04, 0x05]);
}

#[test]
fn parse_user_input_rejects_pre_decode_when_overlong() {
    let s: String = (0..MAX_ENGINE_ID + 10).map(|_| "ab").collect();
    let err = EngineId::parse_user_input(&s).unwrap_err();
    assert!(matches!(err, EngineIdParseError::TooLong { .. }));
}

#[test]
fn is_virtual_interface_matches_known_prefixes() {
    for name in [
        "docker0", "br-abc123", "bond0", "virbr0", "veth123abc", "tun0", "tap0", "wg0", "cni0",
        "kube-bridge", "flannel.1", "cilium_host", "ovs-system", "dummy0", "vboxnet0", "vmnet8",
    ] {
        assert!(is_virtual_interface(name), "expected virtual: {name}");
    }
}

#[test]
fn is_virtual_interface_does_not_match_physical() {
    for name in ["eth0", "en0", "enp0s3", "ens33", "wlan0", "wlp2s0"] {
        assert!(!is_virtual_interface(name), "expected physical: {name}");
    }
}

#[test]
fn is_physical_prefix_matches() {
    assert!(is_physical_prefix("eth0"));
    assert!(is_physical_prefix("en0"));
    assert!(is_physical_prefix("enp0s3"));
    assert!(is_physical_prefix("wlan0"));
    assert!(is_physical_prefix("wlp2s0"));
    assert!(!is_physical_prefix("docker0"));
    assert!(!is_physical_prefix("bond0"));
}

#[test]
fn resolve_user_override_wins_over_src_addr() {
    let user = EngineId::parse_user_input("80001fa050000102").unwrap();
    let resolved = resolve(Some(&user), Some(ip("10.0.0.1")), &Vec::new(), &None);
    assert_eq!(resolved, user);
}

#[test]
fn resolve_src_addr_produces_format_1() {
    let resolved = resolve(None, Some(ip("198.51.100.42")), &Vec::new(), &None);
    assert_eq!(resolved.as_bytes()[4], FORMAT_IPV4);
    assert_eq!(&resolved.as_bytes()[5..], &[0xC6, 0x33, 0x64, 0x2A]);
}

#[test]
fn parse_mac_text_basic() {
    assert_eq!(parse_mac_text("de:ad:be:ef:12:34"), Some([0xDE, 0xAD, 0xBE, 0xEF, 0x12, 0x34]));
    assert_eq!(parse_mac_text("00:00:00:00:00:00"), Some([0u8; 6]));
    assert_eq!(parse_mac_text("not-a-mac"), None);
    assert_eq!(parse_mac_text("de:ad:be:ef:12"), None);
}

// ---- the cascade past the source address ----

fn iface(name: &str, addr: Option<&str>) -> (String, Option<String>) {
    (name.to_string(), addr.map(|a| a.to_string()))
}

#[test]
fn host_mac_prefers_physical_names_then_alphabetical() {
    let ifs = vec![
        iface("lo", Some("00:00:00:00:00:00\n")),
        iface("zz9", Some("02:00:00:00:00:09\n")),
        iface("docker0", Some("02:42:ac:11:00:02\n")),
        iface("wlan0", Some("aa:bb:cc:dd:ee:02\n")),
        iface("eth1", Some("aa:bb:cc:dd:ee:01\n")),
    ];
    assert_eq!(host_mac(&ifs), Some([0xaa, 0xbb, 0xcc, 0xdd, 0xee, 0x01]));
}

#[test]
fn host_mac_skips_zero_unreadable_and_malformed() {
    let ifs = vec![
        iface("eth0", Some("00:00:00:00:00:00")),
        iface("eth1", None),
        iface("eth2", Some("garbage")),
        iface("abc0", Some("  12:34:56:78:9a:bc  \n")),
    ];
    assert_eq!(host_mac(&ifs), Some([0x12, 0x34, 0x56, 0x78, 0x9a, 0xbc]));
    assert_eq!(host_mac(&vec![iface("lo", Some("01:02:03:04:05:06"))]), None);
}

#[test]
fn resolve_falls_back_to_mac_then_hostname() {
    let ifs = vec![iface("eth0", Some("de:ad:be:ef:12:34"))];
    let eid = resolve(None, None, &ifs, &Some("ignored".to_string()));
    assert_eq!(eid.as_bytes(), &[0x80, 0x00, 0xF0, 0x45, 0x03, 0xDE, 0xAD, 0xBE, 0xEF, 0x12, 0x34]);

    let eid = resolve(None, None, &Vec::new(), &Some("host42".to_string()));
    assert_eq!(eid.as_bytes(), EngineId::from_text("host42").as_bytes());

    let eid = resolve(None, None, &Vec::new(), &None);
    assert_eq!(eid.as_bytes(), EngineId::from_text("snmptrap-rs").as_bytes());
    let eid = resolve(None, None, &Vec::new(), &Some(String::new()));
    assert_eq!(eid.as_bytes(), EngineId::from_text("snmptrap-rs").as_bytes());
}

#[test]
fn engine_id_error_texts() {
    assert_eq!(EngineIdParseError::Empty.to_string(), "engine-ID is empty");
    assert_eq!(
        EngineIdParseError::TooShort { got: 4, min: 5 }.to_string(),
        "engine-ID is 4 octets long, RFC 3411 §5 requires at least 5"
    );
    assert_eq!(
        EngineIdParseError::OddLength { got: 3 }.to_string(),
        "engine-ID hex string has odd length (3 chars)"
    );
    assert_eq!(
        EngineIdParseError::BadHex { ch: 'z' }.to_string(),
        "engine-ID contains non-hex character 'z'"
    );
    assert_eq!(
        EngineIdParseError::TooLong { got: 50, max: 32 }.to_string(),
        "engine-ID is 50 octets long, max is 32"
    );
}
