use snmptrap_rs::net::Ipv4Addr;
use snmptrap_rs::varbind::{parse_bits, parse_hex_string, parse_oid, parse_typed_value, ParseError, VarBindValue};

#[test]
fn integer_valid() {
    assert_eq!(parse_typed_value('i', "42").unwrap(), VarBindValue::Integer(42));
    assert_eq!(parse_typed_value('i', "-7").unwrap(), VarBindValue::Integer(-7));
}

#[test]
fn integer_invalid() {
    assert!(matches!(parse_typed_value('i', "abc"), Err(ParseError::BadValue { letter: 'i', .. })));
}

#[test]
fn unsigned32_valid_invalid() {
    assert_eq!(parse_typed_value('u', "4294967295").unwrap(), VarBindValue::Unsigned32(u32::MAX));
    assert!(parse_typed_value('u', "-1").is_err());
}

#[test]
fn timeticks() {
    assert_eq!(parse_typed_value('t', "0").unwrap(), VarBindValue::TimeTicks(0));
    assert!(parse_typed_value('t', "abc").is_err());
}

#[test]
fn ipaddress_valid_invalid() {
    assert_eq!(
        parse_typed_value('a', "10.0.0.1").unwrap(),
        VarBindValue::IpAddress(Ipv4Addr::new(10, 0, 0, 1))
    );
    assert!(parse_typed_value('a', "not-an-ip").is_err());
}

#[test]
fn objid_valid_invalid() {
    assert_eq!(
        parse_typed_value('o', "1.3.6.1.4.1.8072").unwrap(),
        VarBindValue::ObjectId(vec![1, 3, 6, 1, 4, 1, 8072])
    );
    assert!(parse_typed_value('o', "1").is_err());
    assert!(parse_typed_value('o', "1..3").is_err());
    assert!(parse_typed_value('o', "1.x.3").is_err());
}

#[test]
fn string_valid() {
    let v = parse_typed_value('s', "hello").unwrap();
    assert_eq!(v, VarBindValue::OctetString(b"hello".to_vec()));
}

#[test]
fn hex_with_separators() {
    let v = parse_typed_value('x', "de:ad:be:ef").unwrap();
    assert_eq!(v, VarBindValue::OctetString(vec![0xde, 0xad, 0xbe, 0xef]));
    let v = parse_typed_value('x', "DEADBEEF").unwrap();
    assert_eq!(v, VarBindValue::OctetString(vec![0xde, 0xad, 0xbe, 0xef]));
    let v = parse_typed_value('x', "de ad be ef").unwrap();
    assert_eq!(v, VarBindValue::OctetString(vec![0xde, 0xad, 0xbe, 0xef]));
}

#[test]
fn hex_odd_length_rejected() {
    assert!(parse_typed_value('x', "abc").is_err());
    assert!(parse_typed_value('x', "ab:c").is_err());
}

#[test]
fn hex_non_hex_rejected() {
    assert!(parse_typed_value('x', "zz").is_err());
}

#[test]
fn null_ignores_value() {
    let v = parse_typed_value('n', "anything").unwrap();
    assert_eq!(v, VarBindValue::Null);
}

#[test]
fn bits_valid() {
    let v = parse_typed_value('b', "0").unwrap();
    assert_eq!(v, VarBindValue::Bits(vec![0x80]));
    let v = parse_typed_value('b', "0,1,2").unwrap();
    assert_eq!(v, VarBindValue::Bits(vec![0xE0]));
    let v = parse_typed_value('b', "8").unwrap();
    assert_eq!(v, VarBindValue::Bits(vec![0x00, 0x80]));
    let v = parse_typed_value('b', "0 1 2").unwrap();
    assert_eq!(v, VarBindValue::Bits(vec![0xE0]));
}

#[test]
fn bits_invalid() {
    assert!(parse_typed_value('b', "abc").is_err());
    assert!(parse_typed_value('b', "0,xx").is_err());
}

#[test]
fn counter64_valid_invalid() {
    assert_eq!(
        parse_typed_value('U', "18446744073709551615").unwrap(),
        VarBindValue::Counter64(u64::MAX)
    );
    assert!(parse_typed_value('U', "-1").is_err());
}

#[test]
fn unknown_letter_names_letter() {
    let err = parse_typed_value('q', "anything").unwrap_err();
    match err {
        ParseError::UnknownLetter { letter } => assert_eq!(letter, 'q'),
        other => panic!("expected UnknownLetter, got {other:?}"),
    }
}

#[test]
fn oid_first_arc_above_two_rejected() {
    let err = parse_oid("3.4.5").unwrap_err();
    assert!(err.contains("first arc"), "got {err}");
}

#[test]
fn oid_second_arc_too_large_rejected() {
    let err = parse_oid("1.40.5").unwrap_err();
    assert!(err.contains("second arc"), "got {err}");
    assert!(parse_oid("2.999.5").is_ok());
}

#[test]
fn bits_max_position_capped() {
    let err = parse_typed_value('b', "65536").unwrap_err();
    match err {
        ParseError::BadValue { letter: 'b', detail } => {
            assert!(detail.contains("65536") && detail.contains("65535"), "got {detail}");
        }
        other => panic!("expected BadValue, got {other:?}"),
    }
}

#[test]
fn hex_strips_leading_0x_prefix() {
    let v = parse_typed_value('x', "0xdeadbeef").unwrap();
    assert_eq!(v, VarBindValue::OctetString(vec![0xde, 0xad, 0xbe, 0xef]));
    let v = parse_typed_value('x', "0XDEAD").unwrap();
    assert_eq!(v, VarBindValue::OctetString(vec![0xde, 0xad]));
}

#[test]
fn hex_non_ascii_yields_hex_error() {
    let err = parse_typed_value('x', "deñdbeef").unwrap_err();
    match err {
        ParseError::BadValue { letter: 'x', detail } => {
            assert!(detail.contains("non-hex"), "got {detail}");
        }
        other => panic!("expected BadValue, got {other:?}"),
    }
}

// ---- exact texts ----

#[test]
fn oid_error_texts() {
    assert_eq!(parse_oid("").unwrap_err(), "empty OID");
    assert_eq!(parse_oid("1").unwrap_err(), "OID '1' has fewer than two arcs");
    assert_eq!(parse_oid("1..3").unwrap_err(), "empty arc in OID '1..3'");
    assert_eq!(
        parse_oid("1.x.3").unwrap_err(),
        "invalid arc 'x' in OID '1.x.3': invalid digit found in string"
    );
    assert_eq!(parse_oid("3.4.5").unwrap_err(), "OID '3.4.5' first arc must be 0, 1, or 2, got 3");
    assert_eq!(
        parse_oid("1.40.5").unwrap_err(),
        "OID '1.40.5' second arc must be < 40 when first arc is 1, got 40"
    );
    assert_eq!(parse_oid(".1.3.6").unwrap(), vec![1, 3, 6]);
}

#[test]
fn hex_and_bits_direct() {
    assert_eq!(parse_hex_string("0x00ff").unwrap(), vec![0x00, 0xff]);
    assert!(parse_hex_string("0").is_err());
    assert_eq!(parse_bits("15").unwrap(), vec![0x00, 0x01]);
    assert_eq!(parse_bits(" 7 , 0 ").unwrap(), vec![0x81]);
}

#[test]
fn value_error_details() {
    match parse_typed_value('i', "2147483648").unwrap_err() {
        ParseError::BadValue { letter: 'i', detail } => assert_eq!(
            detail,
            "expected signed 32-bit decimal, got '2147483648': number too large to fit in target type"
        ),
        other => panic!("unexpected {other:?}"),
    }
    match parse_typed_value('a', "1.2.3").unwrap_err() {
        ParseError::BadValue { letter: 'a', detail } => assert_eq!(
            detail,
            "expected dotted-quad IPv4, got '1.2.3': invalid IPv4 address syntax"
        ),
        other => panic!("unexpected {other:?}"),
    }
}
