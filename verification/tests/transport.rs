use snmptrap_rs::error::{Error, Platform};
use snmptrap_rs::net::{Ipv4Addr, SocketAddrV4};
use snmptrap_rs::transport::{
    build_ipv4_header, build_udp_datagram, check_payload_size, classify_raw_open, classify_raw_send,
    iphdr_u16_to_kernel, ip_checksum, kernel_field_order, map_send_io, pick_ephemeral_port,
    spoofed_packet, spoofing_supported, ByteOrder, IoKind, OsError, OsErrorCode, SendAttempt,
    SendBudget, Step,
};

#[test]
fn rfc1071_known_answer() {
    let data = [0x00, 0x01, 0xf2, 0x03, 0xf4, 0xf5, 0xf6, 0xf7];
    assert_eq!(ip_checksum(&data), 0x220d);
}

#[test]
fn checksum_zero_data() {
    assert_eq!(ip_checksum(&[0u8; 20]), 0xFFFF);
}

#[test]
fn ipv4_header_round_trip() {
    let src = Ipv4Addr::new(198, 51, 100, 42);
    let dst = Ipv4Addr::new(192, 0, 2, 50);
    for order in [ByteOrder::Big, ByteOrder::Little] {
        let hdr = build_ipv4_header(src, dst, 28, 0xBEEF, order);
        assert_eq!(hdr[0], 0x45);
        assert_eq!(hdr[9], 17);
        assert_eq!(hdr[8], 64);
        assert_eq!([hdr[2], hdr[3]], iphdr_u16_to_kernel(48, order));
        assert_eq!([hdr[6], hdr[7]], iphdr_u16_to_kernel(0x4000, order));
        assert_eq!(&hdr[12..16], &src.octets());
        assert_eq!(&hdr[16..20], &dst.octets());
        assert_eq!(ip_checksum(&hdr), 0);
    }
}

#[test]
fn udp_checksum_uses_spoofed_source() {
    let payload = b"\x30\x05hello";
    let src_spoofed = Ipv4Addr::new(198, 51, 100, 42);
    let src_real = Ipv4Addr::new(10, 0, 0, 1);
    let dst = Ipv4Addr::new(192, 0, 2, 50);
    let dg_a = build_udp_datagram(src_spoofed, dst, 50000, 162, payload);
    let dg_b = build_udp_datagram(src_real, dst, 50000, 162, payload);
    assert_ne!(&dg_a[6..8], &dg_b[6..8]);
}

#[test]
fn udp_zero_checksum_replaced_with_all_ones() {
    let dg = build_udp_datagram(Ipv4Addr::new(1, 2, 3, 4), Ipv4Addr::new(5, 6, 7, 8), 12345, 162, b"x");
    let csum = u16::from_be_bytes([dg[6], dg[7]]);
    assert_ne!(csum, 0, "UDP checksum must never be zero on the wire");
}

// ---- beyond the original's own tests ----

#[test]
fn udp_checksum_verifies_over_pseudo_header() {
    let src = Ipv4Addr::new(198, 51, 100, 42);
    let dst = Ipv4Addr::new(192, 0, 2, 50);
    let payload = b"\x30\x05hello";
    let dg = build_udp_datagram(src, dst, 50000, 162, payload);
    assert_eq!(&dg[0..6], &[0xC3, 0x50, 0x00, 0xA2, 0x00, 15]);
    assert_eq!(&dg[8..], payload);
    let mut check = Vec::new();
    check.extend_from_slice(&src.octets());
    check.extend_from_slice(&dst.octets());
    check.extend_from_slice(&[0, 17, 0, 15]);
    check.extend_from_slice(&dg);
    assert_eq!(ip_checksum(&check), 0);
}

#[test]
fn checksum_odd_length_pads_low_byte() {
    assert_eq!(ip_checksum(&[0x01]), !0x0100u16);
    assert_eq!(ip_checksum(&[0xff, 0xff, 0x00, 0x01]), !0x0001u16);
}

#[test]
fn field_order_follows_the_platform() {
    assert_eq!(kernel_field_order("linux", true), ByteOrder::Big);
    assert_eq!(kernel_field_order("macos", true), ByteOrder::Little);
    assert_eq!(kernel_field_order("freebsd", false), ByteOrder::Big);
    assert_eq!(iphdr_u16_to_kernel(0x1234, ByteOrder::Big), [0x12, 0x34]);
    assert_eq!(iphdr_u16_to_kernel(0x1234, ByteOrder::Little), [0x34, 0x12]);
}

#[test]
fn spoofed_packet_is_header_then_datagram() {
    let src = Ipv4Addr::new(198, 51, 100, 42);
    let dst = SocketAddrV4::new(Ipv4Addr::new(192, 0, 2, 50), 162);
    let p = spoofed_packet(src, dst, 50000, b"abc", 7, ByteOrder::Big);
    assert_eq!(p.len(), 20 + 8 + 3);
    assert_eq!(&p[2..4], &[0, 31]);
    assert_eq!(&p[4..6], &[0, 7]);
    assert_eq!(ip_checksum(&p[..20]), 0);
    assert_eq!(&p[20..], &build_udp_datagram(src, dst.ip(), 50000, 162, b"abc")[..]);
}

#[test]
fn payload_size_limit() {
    assert!(check_payload_size(65507).is_ok());
    match check_payload_size(65508) {
        Err(Error::Other(m)) => {
            assert_eq!(m, "SNMP payload 65508 bytes exceeds IPv4/UDP single-datagram max 65507")
        }
        other => panic!("{other:?}"),
    }
}

fn os(code: OsErrorCode, kind: IoKind) -> OsError {
    OsError { code, kind, text: "boom".to_string() }
}

#[test]
fn error_classification() {
    assert!(matches!(
        classify_raw_open(os(OsErrorCode::Perm, IoKind::Other), Platform::Linux),
        Error::RawSocketDenied { platform: Platform::Linux, .. }
    ));
    assert!(matches!(classify_raw_open(os(OsErrorCode::MsgSize, IoKind::Other), Platform::Linux), Error::Other(_)));
    assert!(matches!(classify_raw_send(os(OsErrorCode::Access, IoKind::Other)), Error::Routing(_)));
    assert!(matches!(classify_raw_send(os(OsErrorCode::Other, IoKind::NetworkUnreachable)), Error::Routing(_)));
    assert!(matches!(classify_raw_send(os(OsErrorCode::Other, IoKind::Other)), Error::Other(_)));
    assert!(matches!(map_send_io(os(OsErrorCode::Perm, IoKind::Other)), Error::Other(_)));
    assert!(matches!(map_send_io(os(OsErrorCode::Other, IoKind::HostUnreachable)), Error::Routing(_)));
}

#[test]
fn raw_budget_ignores_interrupts_and_counts_failures() {
    let mut b = SendBudget::new(1, true);
    assert!(matches!(b.step(SendAttempt::Failed(os(OsErrorCode::Other, IoKind::Interrupted))), Step::Again));
    assert_eq!(b.remaining, 2);
    assert!(matches!(b.step(SendAttempt::Failed(os(OsErrorCode::Other, IoKind::Other))), Step::Again));
    match b.step(SendAttempt::Failed(os(OsErrorCode::HostUnreach, IoKind::Other))) {
        Step::Done(Err(Error::Routing(m))) => assert_eq!(m, "boom"),
        _ => panic!("expected a routing error after the last attempt"),
    }
}

#[test]
fn udp_budget_counts_interrupts() {
    let mut b = SendBudget::new(0, false);
    match b.step(SendAttempt::Failed(os(OsErrorCode::Other, IoKind::Interrupted))) {
        Step::Done(Err(Error::Other(_))) => {}
        _ => panic!("expected the only attempt to end the send"),
    }
    let mut b = SendBudget::new(3, false);
    assert!(matches!(b.step(SendAttempt::Sent), Step::Done(Ok(()))));
}

#[test]
fn platform_support_and_ports() {
    assert!(spoofing_supported("linux").is_ok());
    assert!(spoofing_supported("macos").is_ok());
    assert!(matches!(spoofing_supported("windows"), Err(Error::Unsupported(_))));
    for _ in 0..16 {
        assert!(pick_ephemeral_port() >= 49152);
    }
}

#[test]
fn filled_in_checksum_verifies_on_any_data() {
    let mut data: Vec<u8> = (0u8..37).map(|i| i.wrapping_mul(71).wrapping_add(5)).collect();
    data[10] = 0;
    data[11] = 0;
    let c = ip_checksum(&data);
    data[10..12].copy_from_slice(&c.to_be_bytes());
    assert_eq!(ip_checksum(&data), 0);
}

#[test]
fn odd_length_checksum_equals_zero_padded() {
    let data = [0x12u8, 0x34, 0x56, 0x78, 0x9a];
    let padded = [0x12u8, 0x34, 0x56, 0x78, 0x9a, 0x00];
    assert_eq!(ip_checksum(&data), ip_checksum(&padded));
}
