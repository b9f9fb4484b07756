//! SNMPv3 messages (RFC 3412) carrying a v2 trap PDU, with User-based
//! Security Model parameters (RFC 3414) and optional AES-CFB privacy
//! (RFC 3826).
//!
//! Build order:
//!   1. the v2 trap PDU, inside a scopedPDU (contextEngineID, contextName);
//!   2. with privacy, the encoded scopedPDU is encrypted and carried as an
//!      OCTET STRING, the salt as `privacyParameters`;
//!   3. the message is encoded with `authenticationParameters` set to
//!      zeros of the tag's length;
//!   4. with authentication, the HMAC of those bytes is the tag, and the
//!      message is encoded again with the tag in place. The tag has the
//!      placeholder's length, so the two encodings differ only at the tag:
//!      a receiver that zeroes the tag and recomputes the HMAC gets it back.
//!
//! `msgFlags` always carries the reportable bit, as Net-SNMP's
//! `snmptrap -v 3` does.

use vstd::prelude::*;
use crate::ber::{
    enc_int, push_all, push_int, push_tlv, push_uint, tlv, wrap_tlv, TAG_INTEGER,
    TAG_OCTET_STRING, TAG_SEQUENCE,
};
use crate::engine::EngineId;
use crate::error::{Error, ErrorSpec};
use crate::pdu::{
    bad_oid_message, build_v2_trap_pdu, first_bad_oid, v2_trap_pdu_enc, v2c_bindings, v2c_oids,
    V2cTrap, V2cTrapSpec,
};
use crate::usm::{
    aes_iv, auth_sign, be_bytes, cfb_of, hmac_of, priv_encrypt, push_be,
    AuthProtocol, PrivProtocol,
};

verus! {

pub const SECURITY_MODEL_USM: u32 = 3;
pub const MSG_VERSION_V3: u32 = 3;
/// The largest UDP payload a single IPv4 datagram carries.
pub const MSG_MAX_SIZE: u32 = 65507;

pub const FLAG_AUTH: u8 = 1;
pub const FLAG_PRIV: u8 = 2;
pub const FLAG_REPORTABLE: u8 = 4;

#[derive(Debug, Clone)]
pub struct V3TrapMessage {
    /// The sending engine's ID, carried in the USM security parameters.
    pub authoritative_engine_id: EngineId,
    /// contextEngineID of the scopedPDU; usually the authoritative one.
    pub context_engine_id: EngineId,
    pub context_name: Vec<u8>,
    pub user_name: Vec<u8>,
    pub engine_boots: u32,
    pub engine_time: u32,
    pub msg_id: i32,
    pub security: V3Security,
    /// The trap PDU's contents; its community is not used under v3.
    pub trap: V2cTrap,
}

#[derive(Debug, Clone)]
pub enum V3Security {
    NoAuthNoPriv,
    AuthNoPriv { proto: AuthProtocol, auth_key: Vec<u8> },
    AuthPriv {
        auth_proto: AuthProtocol,
        auth_key: Vec<u8>,
        priv_proto: PrivProtocol,
        priv_key: Vec<u8>,
        salt: u64,
    },
}

/// The content of a [`V3Security`].
pub enum V3SecuritySpec {
    NoAuthNoPriv,
    AuthNoPriv { proto: AuthProtocol, auth_key: Seq<u8> },
    AuthPriv {
        auth_proto: AuthProtocol,
        auth_key: Seq<u8>,
        priv_proto: PrivProtocol,
        priv_key: Seq<u8>,
        salt: u64,
    },
}

/// The content of a [`V3TrapMessage`].
pub struct V3MessageSpec {
    pub authoritative_engine_id: Seq<u8>,
    pub context_engine_id: Seq<u8>,
    pub context_name: Seq<u8>,
    pub user_name: Seq<u8>,
    pub engine_boots: u32,
    pub engine_time: u32,
    pub msg_id: i32,
    pub security: V3SecuritySpec,
    pub trap: V2cTrapSpec,
}

impl View for V3Security {
    type V = V3SecuritySpec;

    open spec fn view(&self) -> V3SecuritySpec {
        match self {
            V3Security::NoAuthNoPriv => V3SecuritySpec::NoAuthNoPriv,
            V3Security::AuthNoPriv { proto, auth_key } => V3SecuritySpec::AuthNoPriv {
                proto: *proto,
                auth_key: auth_key@,
            },
            V3Security::AuthPriv { auth_proto, auth_key, priv_proto, priv_key, salt } =>
                V3SecuritySpec::AuthPriv {
                auth_proto: *auth_proto,
                auth_key: auth_key@,
                priv_proto: *priv_proto,
                priv_key: priv_key@,
                salt: *salt,
            },
        }
    }
}

impl View for V3TrapMessage {
    type V = V3MessageSpec;

    open spec fn view(&self) -> V3MessageSpec {
        V3MessageSpec {
            authoritative_engine_id: self.authoritative_engine_id@,
            context_engine_id: self.context_engine_id@,
            context_name: self.context_name@,
            user_name: self.user_name@,
            engine_boots: self.engine_boots,
            engine_time: self.engine_time,
            msg_id: self.msg_id,
            security: self.security@,
            trap: self.trap@,
        }
    }
}

impl V3SecuritySpec {
    /// `msgFlags`: reportable, plus auth and priv as the level has them.
    pub open spec fn spec_flags(self) -> u8 {
        match self {
            V3SecuritySpec::NoAuthNoPriv => 4,
            V3SecuritySpec::AuthNoPriv { .. } => 5,
            V3SecuritySpec::AuthPriv { .. } => 7,
        }
    }

    /// The authentication protocol and key, if the level authenticates.
    pub open spec fn spec_auth(self) -> Option<(AuthProtocol, Seq<u8>)> {
        match self {
            V3SecuritySpec::NoAuthNoPriv => None,
            V3SecuritySpec::AuthNoPriv { proto, auth_key } => Some((proto, auth_key)),
            V3SecuritySpec::AuthPriv { auth_proto, auth_key, .. } => Some((auth_proto, auth_key)),
        }
    }

    /// The keys have the lengths the protocols take: a localized key of the
    /// digest's length, a privacy key at least as long as the AES key.
    pub open spec fn keys_fit(self) -> bool {
        match self {
            V3SecuritySpec::NoAuthNoPriv => true,
            V3SecuritySpec::AuthNoPriv { proto, auth_key } => auth_key.len() == proto.spec_digest_len(),
            V3SecuritySpec::AuthPriv { auth_proto, auth_key, priv_proto, priv_key, .. } => {
                &&& auth_key.len() == auth_proto.spec_digest_len()
                &&& priv_key.len() >= priv_proto.spec_key_len()
            },
        }
    }

    /// The length of `authenticationParameters`: the truncated tag, or
    /// nothing without authentication.
    pub open spec fn spec_auth_param_len(self) -> nat {
        match self.spec_auth() {
            None => 0,
            Some((p, _)) => p.spec_auth_param_len(),
        }
    }
}

impl V3Security {
    pub fn flag_byte(&self) -> (r: u8)
        ensures
            r == self@.spec_flags(),
    {
        let base = FLAG_REPORTABLE;
        assert(4u8 | 1u8 == 5u8) by (bit_vector);
        assert(4u8 | 1u8 | 2u8 == 7u8) by (bit_vector);
        match self {
            V3Security::NoAuthNoPriv => base,
            V3Security::AuthNoPriv { .. } => base | FLAG_AUTH,
            V3Security::AuthPriv { .. } => base | FLAG_AUTH | FLAG_PRIV,
        }
    }

    pub fn auth(&self) -> (r: Option<(AuthProtocol, &[u8])>)
        ensures
            r is None <==> self@.spec_auth() is None,
            r matches Some((p, k)) ==> self@.spec_auth() == Some((p, k@)),
    {
        match self {
            V3Security::NoAuthNoPriv => None,
            V3Security::AuthNoPriv { proto, auth_key } => Some((*proto, auth_key.as_slice())),
            V3Security::AuthPriv { auth_proto, auth_key, .. } => Some(
                (*auth_proto, auth_key.as_slice()),
            ),
        }
    }
}

// ---------------------------------------------------------------------
// Encodings
// ---------------------------------------------------------------------

/// `HeaderData ::= SEQUENCE { msgID, msgMaxSize, msgFlags, msgSecurityModel }`.
pub open spec fn header_enc(msg_id: int, flags: u8) -> Seq<u8> {
    tlv(
        TAG_SEQUENCE,
        enc_int(TAG_INTEGER, msg_id) + enc_int(TAG_INTEGER, MSG_MAX_SIZE as int) + tlv(
            TAG_OCTET_STRING,
            seq![flags],
        ) + enc_int(TAG_INTEGER, SECURITY_MODEL_USM as int),
    )
}

/// `UsmSecurityParameters ::= SEQUENCE { engineID, boots, time, userName,
/// authenticationParameters, privacyParameters }`.
pub open spec fn usm_params_enc(
    engine_id: Seq<u8>,
    boots: u32,
    time: u32,
    user: Seq<u8>,
    auth: Seq<u8>,
    privp: Seq<u8>,
) -> Seq<u8> {
    tlv(
        TAG_SEQUENCE,
        tlv(TAG_OCTET_STRING, engine_id) + enc_int(TAG_INTEGER, boots as int) + enc_int(
            TAG_INTEGER,
            time as int,
        ) + tlv(TAG_OCTET_STRING, user) + tlv(TAG_OCTET_STRING, auth) + tlv(
            TAG_OCTET_STRING,
            privp,
        ),
    )
}

/// `ScopedPDU ::= SEQUENCE { contextEngineID, contextName, data }`.
pub open spec fn scoped_pdu_enc(context_engine_id: Seq<u8>, context_name: Seq<u8>, pdu: Seq<u8>) -> Seq<u8> {
    tlv(
        TAG_SEQUENCE,
        tlv(TAG_OCTET_STRING, context_engine_id) + tlv(TAG_OCTET_STRING, context_name) + pdu,
    )
}

/// `SNMPv3Message ::= SEQUENCE { msgVersion, msgGlobalData,
/// msgSecurityParameters, msgData }`.
pub open spec fn message_enc(header: Seq<u8>, security: Seq<u8>, data: Seq<u8>) -> Seq<u8> {
    tlv(
        TAG_SEQUENCE,
        enc_int(TAG_INTEGER, MSG_VERSION_V3 as int) + header + tlv(TAG_OCTET_STRING, security)
            + data,
    )
}

/// The plaintext scopedPDU of `m`.
pub open spec fn v3_scoped(m: V3MessageSpec) -> Seq<u8> {
    scoped_pdu_enc(
        m.context_engine_id,
        m.context_name,
        v2_trap_pdu_enc(m.trap.request_id as int, v2c_bindings(m.trap)),
    )
}

/// `msgData`: the scopedPDU, or with privacy its AES-CFB encryption as an
/// OCTET STRING.
pub open spec fn v3_data(m: V3MessageSpec) -> Seq<u8> {
    match m.security {
        V3SecuritySpec::AuthPriv { priv_proto, priv_key, salt, .. } => tlv(
            TAG_OCTET_STRING,
            cfb_of(
                priv_proto,
                priv_key.take(priv_proto.spec_key_len() as int),
                aes_iv(m.engine_boots, m.engine_time, salt),
                v3_scoped(m),
            ),
        ),
        _ => v3_scoped(m),
    }
}

/// `privacyParameters`: the salt as 8 big-endian bytes, with privacy.
pub open spec fn v3_priv_params(m: V3MessageSpec) -> Seq<u8> {
    match m.security {
        V3SecuritySpec::AuthPriv { salt, .. } => be_bytes(salt as nat, 8),
        _ => Seq::<u8>::empty(),
    }
}

/// The message of `m` with `auth` as its `authenticationParameters`.
pub open spec fn v3_with_auth(m: V3MessageSpec, auth: Seq<u8>) -> Seq<u8> {
    message_enc(
        header_enc(m.msg_id as int, m.security.spec_flags()),
        usm_params_enc(
            m.authoritative_engine_id,
            m.engine_boots,
            m.engine_time,
            m.user_name,
            auth,
            v3_priv_params(m),
        ),
        v3_data(m),
    )
}

pub open spec fn zeros(n: nat) -> Seq<u8> {
    Seq::new(n, |i: int| 0u8)
}

/// The message with zeros in place of the tag: the bytes the tag is the
/// HMAC of.
pub open spec fn v3_placeholder(m: V3MessageSpec) -> Seq<u8> {
    v3_with_auth(m, zeros(m.security.spec_auth_param_len()))
}

/// The bytes of the v3 trap message `m`.
pub open spec fn v3_message(m: V3MessageSpec) -> Seq<u8> {
    match m.security.spec_auth() {
        None => v3_placeholder(m),
        Some((p, k)) => v3_with_auth(
            m,
            hmac_of(p, k, v3_placeholder(m)).take(p.spec_auth_param_len() as int),
        ),
    }
}

// ---------------------------------------------------------------------
// Where the tag sits
// ---------------------------------------------------------------------

pub open spec fn usm_pre(m: V3MessageSpec, n: nat) -> Seq<u8> {
    tlv(TAG_OCTET_STRING, m.authoritative_engine_id) + enc_int(TAG_INTEGER, m.engine_boots as int)
        + enc_int(TAG_INTEGER, m.engine_time as int) + tlv(TAG_OCTET_STRING, m.user_name) + seq![
        TAG_OCTET_STRING,
    ] + crate::ber::length_octets(n)
}

pub open spec fn usm_post(m: V3MessageSpec) -> Seq<u8> {
    tlv(TAG_OCTET_STRING, v3_priv_params(m))
}

pub open spec fn sec_pre(m: V3MessageSpec, n: nat) -> Seq<u8> {
    seq![TAG_SEQUENCE] + crate::ber::length_octets(usm_pre(m, n).len() + n + usm_post(m).len())
        + usm_pre(m, n)
}

pub open spec fn body_pre(m: V3MessageSpec, n: nat) -> Seq<u8> {
    enc_int(TAG_INTEGER, MSG_VERSION_V3 as int) + header_enc(m.msg_id as int, m.security.spec_flags())
        + seq![TAG_OCTET_STRING] + crate::ber::length_octets(
        sec_pre(m, n).len() + n + usm_post(m).len(),
    ) + sec_pre(m, n)
}

pub open spec fn body_post(m: V3MessageSpec) -> Seq<u8> {
    usm_post(m) + v3_data(m)
}

pub open spec fn msg_pre(m: V3MessageSpec, n: nat) -> Seq<u8> {
    seq![TAG_SEQUENCE] + crate::ber::length_octets(body_pre(m, n).len() + n + body_post(m).len())
        + body_pre(m, n)
}

/// The offset of the `authenticationParameters` contents in the message.
pub open spec fn auth_offset(m: V3MessageSpec) -> nat {
    msg_pre(m, m.security.spec_auth_param_len()).len()
}

/// `b` with its `authenticationParameters` contents set to zeros, as a
/// receiver does before recomputing the HMAC.
pub open spec fn zero_auth_field(b: Seq<u8>, m: V3MessageSpec) -> Seq<u8> {
    let off = auth_offset(m) as int;
    let n = m.security.spec_auth_param_len();
    b.take(off) + zeros(n) + b.skip(off + n)
}

/// A TLV whose contents are `p + x + q` is `x` with fixed bytes around it.
proof fn lemma_tlv_mid(tag: u8, p: Seq<u8>, x: Seq<u8>, q: Seq<u8>)
    ensures
        tlv(tag, p + x + q) == (seq![tag] + crate::ber::length_octets((p + x + q).len()) + p) + x
            + q,
{
    assert(tlv(tag, p + x + q) =~= (seq![tag] + crate::ber::length_octets((p + x + q).len()) + p)
        + x + q);
}

proof fn lemma_usm_splice(m: V3MessageSpec, auth: Seq<u8>)
    ensures
        usm_params_enc(
            m.authoritative_engine_id,
            m.engine_boots,
            m.engine_time,
            m.user_name,
            auth,
            v3_priv_params(m),
        ) == sec_pre(m, auth.len()) + auth + usm_post(m),
{
    let n = auth.len();
    let content = tlv(TAG_OCTET_STRING, m.authoritative_engine_id) + enc_int(
        TAG_INTEGER,
        m.engine_boots as int,
    ) + enc_int(TAG_INTEGER, m.engine_time as int) + tlv(TAG_OCTET_STRING, m.user_name) + tlv(
        TAG_OCTET_STRING,
        auth,
    ) + tlv(TAG_OCTET_STRING, v3_priv_params(m));
    assert(content =~= usm_pre(m, n) + auth + usm_post(m));
    lemma_tlv_mid(TAG_SEQUENCE, usm_pre(m, n), auth, usm_post(m));
}

/// The message with a given `authenticationParameters` is the same bytes
/// around it, whatever its contents, as long as the length is the same.
proof fn lemma_auth_splice(m: V3MessageSpec, auth: Seq<u8>)
    ensures
        v3_with_auth(m, auth) == msg_pre(m, auth.len()) + auth + body_post(m),
{
    let n = auth.len();
    lemma_usm_splice(m, auth);
    let sp = sec_pre(m, n) + auth + usm_post(m);
    let head = enc_int(TAG_INTEGER, MSG_VERSION_V3 as int) + header_enc(
        m.msg_id as int,
        m.security.spec_flags(),
    );
    let c = head + tlv(TAG_OCTET_STRING, sp) + v3_data(m);
    assert(c =~= body_pre(m, n) + auth + body_post(m));
    lemma_tlv_mid(TAG_SEQUENCE, body_pre(m, n), auth, body_post(m));
}

// ---------------------------------------------------------------------
// Exec encoders
// ---------------------------------------------------------------------

fn encode_header(msg_id: i32, flags: u8) -> (r: Vec<u8>)
    ensures
        r@ == header_enc(msg_id as int, flags),
{
    let mut c: Vec<u8> = Vec::new();
    push_int(&mut c, TAG_INTEGER, msg_id as i64);
    push_uint(&mut c, TAG_INTEGER, MSG_MAX_SIZE as u64);
    let f = [flags];
    push_tlv(&mut c, TAG_OCTET_STRING, &f);
    assert(f@ =~= seq![flags]);
    push_uint(&mut c, TAG_INTEGER, SECURITY_MODEL_USM as u64);
    let r = wrap_tlv(TAG_SEQUENCE, c.as_slice());
    assert(r@ =~= header_enc(msg_id as int, flags));
    r
}

fn encode_usm_params(m: &V3TrapMessage, auth: &[u8], privp: &[u8]) -> (r: Vec<u8>)
    ensures
        r@ == usm_params_enc(
            m@.authoritative_engine_id,
            m.engine_boots,
            m.engine_time,
            m@.user_name,
            auth@,
            privp@,
        ),
{
    let mut c: Vec<u8> = Vec::new();
    push_tlv(&mut c, TAG_OCTET_STRING, m.authoritative_engine_id.as_bytes());
    push_uint(&mut c, TAG_INTEGER, m.engine_boots as u64);
    push_uint(&mut c, TAG_INTEGER, m.engine_time as u64);
    push_tlv(&mut c, TAG_OCTET_STRING, m.user_name.as_slice());
    push_tlv(&mut c, TAG_OCTET_STRING, auth);
    push_tlv(&mut c, TAG_OCTET_STRING, privp);
    let r = wrap_tlv(TAG_SEQUENCE, c.as_slice());
    assert(r@ =~= usm_params_enc(
        m.authoritative_engine_id@,
        m.engine_boots,
        m.engine_time,
        m.user_name@,
        auth@,
        privp@,
    ));
    r
}

fn encode_message(header: &[u8], security: &[u8], data: &[u8]) -> (r: Vec<u8>)
    ensures
        r@ == message_enc(header@, security@, data@),
{
    let mut c: Vec<u8> = Vec::new();
    push_uint(&mut c, TAG_INTEGER, MSG_VERSION_V3 as u64);
    push_all(&mut c, header);
    push_tlv(&mut c, TAG_OCTET_STRING, security);
    push_all(&mut c, data);
    let r = wrap_tlv(TAG_SEQUENCE, c.as_slice());
    assert(r@ =~= message_enc(header@, security@, data@));
    r
}

fn zero_bytes(n: usize) -> (r: Vec<u8>)
    ensures
        r@ == zeros(n as nat),
{
    let mut r: Vec<u8> = Vec::with_capacity(n);
    let mut i: usize = 0;
    while i < n
        invariant
            0 <= i <= n,
            r@ == zeros(i as nat),
        decreases n - i,
    {
        r.push(0u8);
        i = i + 1;
        assert(r@ =~= zeros(i as nat));
    }
    r
}

/// The plaintext scopedPDU of `m`.
fn encode_scoped(m: &V3TrapMessage) -> (r: Result<Vec<u8>, Error>)
    ensures
        r is Ok <==> first_bad_oid(v2c_oids(m.trap@)) is None,
        r matches Ok(b) ==> b@ == v3_scoped(m@),
        r matches Err(e) ==> first_bad_oid(v2c_oids(m.trap@)) matches Some(x) && e@
            == ErrorSpec::Encode(bad_oid_message(x)),
{
    let pdu = build_v2_trap_pdu(&m.trap)?;
    let mut sc: Vec<u8> = Vec::new();
    push_tlv(&mut sc, TAG_OCTET_STRING, m.context_engine_id.as_bytes());
    push_tlv(&mut sc, TAG_OCTET_STRING, m.context_name.as_slice());
    push_all(&mut sc, pdu.as_slice());
    let scoped = wrap_tlv(TAG_SEQUENCE, sc.as_slice());
    assert(scoped@ =~= v3_scoped(m@));
    Ok(scoped)
}

/// `msgData` and `privacyParameters` of `m`, from its scopedPDU.
fn encode_data(m: &V3TrapMessage, scoped: Vec<u8>) -> (r: (Vec<u8>, Vec<u8>))
    requires
        m.security@.keys_fit(),
        scoped@ == v3_scoped(m@),
    ensures
        r.0@ == v3_data(m@),
        r.1@ == v3_priv_params(m@),
{
    let mut privp: Vec<u8> = Vec::new();
    match &m.security {
        V3Security::AuthPriv { priv_proto, priv_key, salt, .. } => {
            let ct = priv_encrypt(
                scoped.as_slice(),
                priv_key.as_slice(),
                m.engine_boots,
                m.engine_time,
                *salt,
                *priv_proto,
            );
            push_be(&mut privp, *salt, 8);
            assert(privp@ =~= be_bytes(*salt as nat, 8));
            (wrap_tlv(TAG_OCTET_STRING, ct.as_slice()), privp)
        },
        _ => {
            assert(privp@ =~= Seq::<u8>::empty());
            (scoped, privp)
        },
    }
}

/// Two encodings that differ only in the `authenticationParameters`
/// contents, of equal length, are the same bytes around them.
proof fn lemma_signed_message(m: V3MessageSpec, tag: Seq<u8>, signed: Seq<u8>, placeholder: Seq<u8>)
    requires
        tag.len() == m.security.spec_auth_param_len(),
        signed == v3_with_auth(m, tag),
        placeholder == v3_placeholder(m),
    ensures
        signed.len() == placeholder.len(),
        zero_auth_field(signed, m) == placeholder,
        signed.subrange(auth_offset(m) as int, (auth_offset(m) + tag.len()) as int) == tag,
{
    let n = tag.len();
    lemma_auth_splice(m, tag);
    lemma_auth_splice(m, zeros(n));
    let pre = msg_pre(m, n);
    let post = body_post(m);
    let off = auth_offset(m) as int;
    assert(off == pre.len());
    assert(signed.take(off) =~= pre);
    assert(signed.skip(off + n) =~= post);
    assert(signed.subrange(off, off + n) =~= tag);
    assert(zero_auth_field(signed, m) =~= placeholder);
}

/// Encodes the SNMPv3 trap message `m`. Fails only when an OBJECT
/// IDENTIFIER of the trap cannot be expressed in BER, reporting the first
/// one. With authentication, zeroing the tag in the result gives back the
/// exact bytes the tag is the HMAC of.
pub fn build_v3_trap_message(m: &V3TrapMessage) -> (r: Result<Vec<u8>, Error>)
    requires
        m.security@.keys_fit(),
    ensures
        r is Ok <==> first_bad_oid(v2c_oids(m.trap@)) is None,
        r matches Ok(b) ==> b@ == v3_message(m@),
        r matches Ok(b) ==> (m@.security.spec_auth() matches Some((p, k)) ==> {
            let off = auth_offset(m@) as int;
            let n = p.spec_auth_param_len() as int;
            &&& b@.len() == v3_placeholder(m@).len()
            &&& zero_auth_field(b@, m@) == v3_placeholder(m@)
            &&& b@.subrange(off, off + n) == hmac_of(p, k, zero_auth_field(b@, m@)).take(n)
        }),
        r matches Err(e) ==> first_bad_oid(v2c_oids(m.trap@)) matches Some(x) && e@
            == ErrorSpec::Encode(bad_oid_message(x)),
{
    let scoped = encode_scoped(m)?;
    let (data, privp) = encode_data(m, scoped);
    let apl: usize = match &m.security {
        V3Security::NoAuthNoPriv => 0,
        V3Security::AuthNoPriv { proto, .. } => proto.auth_param_len(),
        V3Security::AuthPriv { auth_proto, .. } => auth_proto.auth_param_len(),
    };
    assert(apl == m@.security.spec_auth_param_len());
    let header = encode_header(m.msg_id, m.security.flag_byte());
    let placeholder_auth = zero_bytes(apl);
    let sec_placeholder = encode_usm_params(m, placeholder_auth.as_slice(), privp.as_slice());
    let placeholder = encode_message(header.as_slice(), sec_placeholder.as_slice(), data.as_slice());
    assert(placeholder@ == v3_placeholder(m@));
    match m.security.auth() {
        None => Ok(placeholder),
        Some((proto, key)) => {
            let tag = auth_sign(placeholder.as_slice(), key, proto);
            let sec_signed = encode_usm_params(m, tag.as_slice(), privp.as_slice());
            let signed = encode_message(header.as_slice(), sec_signed.as_slice(), data.as_slice());
            proof {
                lemma_signed_message(m@, tag@, signed@, placeholder@);
            }
            Ok(signed)
        },
    }
}

/// A fresh msgID (RFC 3412 §6.2), uniformly drawn from `1..=i32::MAX`.
pub fn fresh_msg_id() -> (r: i32)
    ensures
        1 <= r <= i32::MAX,
{
    crate::entropy::random_in(1, 2147483647u32) as i32
}

} // verus!
