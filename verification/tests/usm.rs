use std::str::FromStr;

use aes::cipher::KeyIvInit;
use snmptrap_rs::engine::EngineId;
use snmptrap_rs::error::Error;
use snmptrap_rs::usm::{
    auth_sign, fresh_salt, hash, make_aes_iv, password_to_key, priv_encrypt, priv_key_from_password,
    AuthProtocol, PrivProtocol,
};

fn hex(s: &str) -> Vec<u8> {
    let cleaned: String = s.chars().filter(|c| !c.is_ascii_whitespace()).collect();
    hex::decode(cleaned).unwrap()
}

fn rfc3414_engine_id() -> EngineId {
    EngineId::parse_user_input("000000000000000000000002").unwrap()
}

#[test]
fn auth_proto_parse_accepts_sha_aliases() {
    assert_eq!(AuthProtocol::from_str("SHA").unwrap(), AuthProtocol::Sha1);
    assert_eq!(AuthProtocol::from_str("SHA-1").unwrap(), AuthProtocol::Sha1);
    assert_eq!(AuthProtocol::from_str("SHA-256").unwrap(), AuthProtocol::Sha256);
    assert_eq!(AuthProtocol::from_str("SHA512").unwrap(), AuthProtocol::Sha512);
}

#[test]
fn auth_proto_parse_is_case_insensitive() {
    assert_eq!(AuthProtocol::from_str("sha").unwrap(), AuthProtocol::Sha1);
    assert_eq!(AuthProtocol::from_str("Sha-256").unwrap(), AuthProtocol::Sha256);
    assert_eq!(AuthProtocol::from_str("sha512").unwrap(), AuthProtocol::Sha512);
}

#[test]
fn auth_proto_parse_rejects_md5_with_deprecation_hint() {
    for input in ["MD5", "md5", "Md5", "HMAC-MD5", "hmac-md5"] {
        let err = AuthProtocol::from_str(input).unwrap_err();
        match err {
            Error::Usage(msg) => {
                assert!(msg.contains("HMAC-MD5"), "input={input} msg={msg}");
                assert!(msg.contains("not supported"), "input={input} msg={msg}");
                assert!(msg.contains("SHA"), "input={input} msg={msg}");
            }
            other => panic!("expected Usage for {input}, got {other:?}"),
        }
    }
}

#[test]
fn priv_proto_parse_accepts_aes_aliases() {
    assert_eq!(PrivProtocol::from_str("AES").unwrap(), PrivProtocol::Aes128);
    assert_eq!(PrivProtocol::from_str("AES-128").unwrap(), PrivProtocol::Aes128);
    assert_eq!(PrivProtocol::from_str("AES-256").unwrap(), PrivProtocol::Aes256);
}

#[test]
fn priv_proto_parse_is_case_insensitive() {
    assert_eq!(PrivProtocol::from_str("aes").unwrap(), PrivProtocol::Aes128);
    assert_eq!(PrivProtocol::from_str("Aes-256").unwrap(), PrivProtocol::Aes256);
}

#[test]
fn priv_proto_parse_rejects_des() {
    for input in ["DES", "des", "Des", "DES-CBC", "des-cbc"] {
        let err = PrivProtocol::from_str(input).unwrap_err();
        match err {
            Error::Usage(msg) => {
                assert!(msg.contains("DES-CBC"), "input={input} msg={msg}");
                assert!(msg.contains("AES"), "input={input} msg={msg}");
            }
            other => panic!("expected Usage for {input}, got {other:?}"),
        }
    }
}

#[test]
fn priv_proto_parse_rejects_3des() {
    for input in ["3DES", "3des", "3DES-CBC", "tdes", "TDES"] {
        let err = PrivProtocol::from_str(input).unwrap_err();
        match err {
            Error::Usage(msg) => assert!(msg.contains("3DES-CBC"), "input={input} msg={msg}"),
            other => panic!("expected Usage for {input}, got {other:?}"),
        }
    }
}

#[test]
fn password_to_key_sha1_rfc3414_a3() {
    let key = password_to_key("maplesyrup", &rfc3414_engine_id(), AuthProtocol::Sha1).unwrap();
    let expected = hex("6695febc 9288e362 82235fc7 151f1284 97b38f3f");
    assert_eq!(key, expected, "RFC 3414 §A.3 SHA-1 vector mismatch");
}

#[test]
fn password_to_key_lengths_match_digest() {
    let eid = rfc3414_engine_id();
    for proto in [AuthProtocol::Sha224, AuthProtocol::Sha256, AuthProtocol::Sha384, AuthProtocol::Sha512] {
        let key = password_to_key("maplesyrup", &eid, proto).unwrap();
        assert_eq!(key.len(), proto.digest_len(), "key length mismatch for {proto:?}");
    }
}

#[test]
fn password_to_key_rejects_short_passwords() {
    for short in ["", "a", "1234567"] {
        let err = password_to_key(short, &rfc3414_engine_id(), AuthProtocol::Sha256).unwrap_err();
        match err {
            Error::Usage(msg) => {
                assert!(msg.contains("at least 8"), "short={short:?} msg={msg}");
                assert!(msg.contains("RFC 3414"), "short={short:?} msg={msg}");
            }
            other => panic!("expected Usage, got {other:?}"),
        }
    }
    assert!(password_to_key("12345678", &rfc3414_engine_id(), AuthProtocol::Sha256).is_ok());
}

#[test]
fn priv_key_from_password_sha256_aes128() {
    let eid = rfc3414_engine_id();
    let priv_key =
        priv_key_from_password("privpass", &eid, AuthProtocol::Sha256, PrivProtocol::Aes128).unwrap();
    assert_eq!(priv_key.len(), 16);
}

#[test]
fn priv_key_from_password_sha1_aes192_rejected() {
    let eid = rfc3414_engine_id();
    let err =
        priv_key_from_password("passw0rd", &eid, AuthProtocol::Sha1, PrivProtocol::Aes192).unwrap_err();
    match err {
        Error::Usage(msg) => {
            assert!(msg.contains("SHA-1"), "msg: {msg}");
            assert!(msg.contains("AES-192"), "msg: {msg}");
        }
        other => panic!("expected Usage, got {other:?}"),
    }
}

#[test]
fn priv_key_from_password_sha1_aes256_rejected() {
    let eid = rfc3414_engine_id();
    let err =
        priv_key_from_password("passw0rd", &eid, AuthProtocol::Sha1, PrivProtocol::Aes256).unwrap_err();
    assert!(matches!(err, Error::Usage(_)));
}

#[test]
fn priv_key_from_password_rejects_short_password_first() {
    let eid = rfc3414_engine_id();
    let err = priv_key_from_password("p", &eid, AuthProtocol::Sha1, PrivProtocol::Aes256).unwrap_err();
    match err {
        Error::Usage(msg) => assert!(msg.contains("at least 8"), "msg: {msg}"),
        other => panic!("expected Usage, got {other:?}"),
    }
}

#[test]
fn auth_protocol_display() {
    assert_eq!(AuthProtocol::Sha1.to_string(), "SHA-1");
    assert_eq!(AuthProtocol::Sha256.to_string(), "SHA-256");
    assert_eq!(AuthProtocol::Sha512.to_string(), "SHA-512");
}

#[test]
fn priv_protocol_display() {
    assert_eq!(PrivProtocol::Aes128.to_string(), "AES-128");
    assert_eq!(PrivProtocol::Aes192.to_string(), "AES-192");
    assert_eq!(PrivProtocol::Aes256.to_string(), "AES-256");
}

fn rfc4231_tc1_key_padded(proto: AuthProtocol) -> Vec<u8> {
    let mut key = vec![0x0bu8; 20];
    key.resize(proto.digest_len(), 0x00);
    key
}

#[test]
fn hmac_sha256_rfc4231_tc1() {
    let key = rfc4231_tc1_key_padded(AuthProtocol::Sha256);
    let tag = auth_sign(b"Hi There", &key, AuthProtocol::Sha256);
    let full = hex("b0344c61 d8db3853 5ca8afce af0bf12b 881dc200 c9833da7 26e9376c 2e32cff7");
    assert_eq!(tag.len(), 24);
    assert_eq!(tag, &full[..24]);
}

#[test]
fn hmac_sha512_rfc4231_tc1() {
    let key = rfc4231_tc1_key_padded(AuthProtocol::Sha512);
    let tag = auth_sign(b"Hi There", &key, AuthProtocol::Sha512);
    let full = hex(
        "87aa7cde a5ef619d 4ff0b424 1a1d6cb0 2379f4e2 ce4ec278 7ad0b305 45e17cde
         daa833b7 d6b8a702 038b274e aea3f4e4 be9d914e eb61f170 2e696c20 3a126854",
    );
    assert_eq!(tag.len(), 48);
    assert_eq!(tag, &full[..48]);
}

#[test]
fn hmac_sha1_truncates_to_12_bytes() {
    let tag = auth_sign(b"x", &[0u8; 20], AuthProtocol::Sha1);
    assert_eq!(tag.len(), 12);
}

#[test]
fn priv_encrypt_round_trip_aes128() {
    let key = [0x42u8; 16];
    let plaintext = b"the scoped PDU bytes go here".to_vec();
    let ct = priv_encrypt(&plaintext, &key, 1, 100, 0xDEADBEEF_CAFEBABE, PrivProtocol::Aes128);
    assert_eq!(ct.len(), plaintext.len(), "CFB preserves length");
    assert_ne!(ct, plaintext, "ciphertext should differ from plaintext");
    let iv = make_aes_iv(1, 100, 0xDEADBEEF_CAFEBABE);
    let mut buf = ct.clone();
    cfb_mode::Decryptor::<aes::Aes128>::new_from_slices(&key, &iv).unwrap().decrypt(&mut buf);
    assert_eq!(buf, plaintext);
}

#[test]
fn priv_encrypt_round_trip_aes256() {
    let key = [0x77u8; 32];
    let plaintext = b"another scoped PDU".to_vec();
    let ct = priv_encrypt(&plaintext, &key, 7, 9999, 0xFFFFEEEE_DDDDCCCC, PrivProtocol::Aes256);
    assert_eq!(ct.len(), plaintext.len());
    let iv = make_aes_iv(7, 9999, 0xFFFFEEEE_DDDDCCCC);
    let mut buf = ct.clone();
    cfb_mode::Decryptor::<aes::Aes256>::new_from_slices(&key, &iv).unwrap().decrypt(&mut buf);
    assert_eq!(buf, plaintext);
}

#[test]
fn priv_encrypt_iv_construction() {
    let iv = make_aes_iv(1, 0x10203040, 0xAABBCCDD_EEFF0011);
    assert_eq!(
        iv,
        [
            0x00, 0x00, 0x00, 0x01, 0x10, 0x20, 0x30, 0x40, 0xAA, 0xBB, 0xCC, 0xDD, 0xEE, 0xFF, 0x00, 0x11,
        ]
    );
}

#[test]
fn fresh_salt_varies() {
    let a = fresh_salt();
    let b = fresh_salt();
    assert_ne!(a, b);
}

// ---- beyond the original's own tests ----

#[test]
fn sha256_digest_known_answer() {
    assert_eq!(
        hash(b"abc", AuthProtocol::Sha256),
        hex("ba7816bf 8f01cfea 414140de 5dae2223 b00361a3 96177a9c b410ff61 f20015ad")
    );
    assert_eq!(hash(b"abc", AuthProtocol::Sha1), hex("a9993e36 4706816a ba3e2571 7850c26c 9cd0d89d"));
}

#[test]
fn priv_key_is_a_prefix_of_the_localized_key() {
    let eid = rfc3414_engine_id();
    let full = password_to_key("maplesyrup", &eid, AuthProtocol::Sha256).unwrap();
    let k = priv_key_from_password("maplesyrup", &eid, AuthProtocol::Sha256, PrivProtocol::Aes128).unwrap();
    assert_eq!(k, &full[..16]);
}

#[test]
fn protocol_error_texts() {
    match AuthProtocol::from_str("whirlpool").unwrap_err() {
        Error::Usage(m) => assert_eq!(
            m,
            "unknown auth protocol 'whirlpool'; supported: SHA, SHA-224, SHA-256, SHA-384, SHA-512"
        ),
        other => panic!("{other:?}"),
    }
    match PrivProtocol::from_str("AES-512").unwrap_err() {
        Error::Usage(m) => assert_eq!(m, "unknown priv protocol 'AES-512'; supported: AES, AES-192, AES-256"),
        other => panic!("{other:?}"),
    }
    match password_to_key("short", &rfc3414_engine_id(), AuthProtocol::Sha1).unwrap_err() {
        Error::Usage(m) => assert_eq!(m, "USM password must be at least 8 characters (RFC 3414 §11.2); got 5"),
        other => panic!("{other:?}"),
    }
    match priv_key_from_password("passw0rd", &rfc3414_engine_id(), AuthProtocol::Sha1, PrivProtocol::Aes256)
        .unwrap_err()
    {
        Error::Usage(m) => assert_eq!(
            m,
            "auth protocol SHA-1 produces a 20-byte localized key, but priv protocol AES-256 requires 32 bytes. Use SHA-224 or higher with AES-192, or SHA-256 or higher with AES-256."
        ),
        other => panic!("{other:?}"),
    }
}

#[test]
fn sha2_digest_known_answers() {
    assert_eq!(
        hash(b"abc", AuthProtocol::Sha224),
        hex("23097d22 3405d822 8642a477 bda255b3 2aadbce4 bda0b3f7 e36c9da7")
    );
    assert_eq!(
        hash(b"abc", AuthProtocol::Sha384),
        hex("cb00753f 45a35e8b b5a03d69 9ac65007 272c32ab 0eded163 1a8b605a 43ff5bed
             8086072b a1e7cc23 58baeca1 34c825a7")
    );
    assert_eq!(
        hash(b"abc", AuthProtocol::Sha512),
        hex("ddaf35a1 93617aba cc417349 ae204131 12e6fa4e 89a97ea2 0a9eeee6 4b55d39a
             2192992a 274fc1a8 36ba3c23 a3feebbd 454d4423 643ce80e 2a9ac94f a54ca49f")
    );
}

#[test]
fn hmac_sha224_and_sha384_rfc4231_tc1() {
    let tag = auth_sign(b"Hi There", &rfc4231_tc1_key_padded(AuthProtocol::Sha224), AuthProtocol::Sha224);
    let full = hex("896fb112 8abbdf19 6832107c d49df33f 47b4b116 9912ba4f 53684b22");
    assert_eq!(tag, &full[..16]);
    let tag = auth_sign(b"Hi There", &rfc4231_tc1_key_padded(AuthProtocol::Sha384), AuthProtocol::Sha384);
    let full = hex(
        "afd03944 d8489562 6b0825f4 ab46907f 15f9dadb e4101ec6 82aa034c 7cebc59c
         faea9ea9 076ede7f 4af152e8 b2fa9cb6",
    );
    assert_eq!(tag, &full[..32]);
}

#[test]
fn priv_encrypt_round_trip_aes192() {
    let key = [0x19u8; 24];
    let plaintext = b"a scoped PDU of odd length".to_vec();
    let ct = priv_encrypt(&plaintext, &key, 3, 4, 5, PrivProtocol::Aes192);
    assert_eq!(ct.len(), plaintext.len());
    assert_ne!(ct, plaintext);
    let iv = make_aes_iv(3, 4, 5);
    let mut buf = ct.clone();
    cfb_mode::Decryptor::<aes::Aes192>::new_from_slices(&key, &iv).unwrap().decrypt(&mut buf);
    assert_eq!(buf, plaintext);
}

#[test]
fn priv_encrypt_uses_only_the_key_prefix() {
    let mut long_key = vec![0x42u8; 16];
    long_key.extend_from_slice(&[0xEEu8; 16]);
    let a = priv_encrypt(b"same bytes", &long_key, 1, 1, 1, PrivProtocol::Aes128);
    let b = priv_encrypt(b"same bytes", &long_key[..16], 1, 1, 1, PrivProtocol::Aes128);
    assert_eq!(a, b);
}

#[test]
fn protocol_names_parse_back() {
    for p in [
        AuthProtocol::Sha1,
        AuthProtocol::Sha224,
        AuthProtocol::Sha256,
        AuthProtocol::Sha384,
        AuthProtocol::Sha512,
    ] {
        assert_eq!(AuthProtocol::from_str(&p.to_string()).ok(), Some(p));
        assert_eq!(AuthProtocol::from_str(&p.to_string().to_ascii_lowercase()).ok(), Some(p));
    }
    for p in [PrivProtocol::Aes128, PrivProtocol::Aes192, PrivProtocol::Aes256] {
        assert_eq!(PrivProtocol::from_str(&p.to_string()).ok(), Some(p));
        assert_eq!(PrivProtocol::from_str(&p.to_string().to_ascii_lowercase()).ok(), Some(p));
    }
}

#[test]
fn priv_key_bytes_past_key_len_are_ignored() {
    let plaintext: Vec<u8> = (0u8..45).collect();
    let short = vec![0x11u8; 16];
    let mut long = short.clone();
    long.extend_from_slice(&[0xAB; 16]);
    assert_eq!(
        priv_encrypt(&plaintext, &short, 2, 77, 0x0102030405060708, PrivProtocol::Aes128),
        priv_encrypt(&plaintext, &long, 2, 77, 0x0102030405060708, PrivProtocol::Aes128)
    );
}
