use snmptrap_rs::cli::SnmpVersion;
use snmptrap_rs::debug::{print_pre_send_dump, write_hex_dump};
use snmptrap_rs::net::{Ipv4Addr, SocketAddrV4};

#[test]
fn header_redacts_community_and_names_fields() {
    let dst = SocketAddrV4::new(Ipv4Addr::new(192, 0, 2, 50), 162);
    let src = Ipv4Addr::new(198, 51, 100, 42);
    let payload = b"\x30\x05hello";
    let text = print_pre_send_dump(SnmpVersion::V2c, dst, Some(src), Some(49152), payload);
    assert!(text.contains("snmp_version=2c"), "{}", text);
    assert!(text.contains("dst=192.0.2.50:162"), "{}", text);
    assert!(text.contains("src=198.51.100.42"), "{}", text);
    assert!(text.contains("community=***"), "{}", text);
    assert!(text.contains("payload_bytes=7"), "{}", text);
    assert!(text.contains("30 05"), "{}", text);
    assert!(text.contains("hello"), "{}", text);
}

#[test]
fn hex_dump_format_matches_xxd_basics() {
    let s = write_hex_dump(&[0u8; 16]);
    assert!(s.starts_with("00000000: "));
    assert!(s.contains("00 00 00 00"));
}

// ---- beyond the original's own tests ----

#[test]
fn hex_dump_exact_lines() {
    let data: Vec<u8> = (0u8..20).map(|i| i + 0x41).collect();
    let s = write_hex_dump(&data);
    assert_eq!(
        s,
        "00000000: 41 42 43 44 45 46 47 48  49 4a 4b 4c 4d 4e 4f 50  ABCDEFGHIJKLMNOP\n\
         00000010: 51 52 53 54                                       QRST\n"
    );
    assert_eq!(write_hex_dump(&[]), "");
    assert_eq!(
        write_hex_dump(&[0x00, 0x20, 0x7e, 0x7f]),
        "00000000: 00 20 7e 7f                                       . ~.\n"
    );
}

#[test]
fn header_placeholders_without_source() {
    let dst = SocketAddrV4::new(Ipv4Addr::new(192, 0, 2, 50), 1620);
    let text = print_pre_send_dump(SnmpVersion::V3, dst, None, None, b"");
    assert_eq!(
        text,
        "[debug] snmp_version=3 dst=192.0.2.50:1620 src=<kernel-selected> src_port=<ephemeral> community=*** payload_bytes=0\n"
    );
}
