//! SNMPv3 USM (User-based Security Model) crypto: protocol names, password
//! localization (RFC 3414 §A.2, extended to SHA-2 by RFC 7860 §3.4), the
//! truncated HMAC tag (RFC 7860 §4.2.2) and AES-CFB privacy (RFC 3826).
//!
//! The hash, HMAC and cipher computations are those of the RustCrypto
//! crates; each is named below and the rest is proved against the names.

use vstd::prelude::*;
use vstd::string::*;
use aes::cipher::KeyIvInit;
use hmac::{Hmac, KeyInit, Mac};
use sha1::{Digest, Sha1};
use sha2::{Sha224, Sha256, Sha384, Sha512};
use crate::engine::EngineId;
use crate::entropy::random_u64;
use crate::error::{Error, ErrorSpec};
use crate::lex::{ascii_lower, ascii_upper, chars_eq_str, upper_chars};
use crate::text::{concat3, dec, push_dec, text};

verus! {

// ---------------------------------------------------------------------
// Protocols
// ---------------------------------------------------------------------

/// USM authentication protocols (HMAC-SHA family). HMAC-MD5 is refused
/// when parsing.
#[derive(Debug, Clone, Copy, PartialEq, Eq, Structural)]
pub enum AuthProtocol {
    Sha1,
    Sha224,
    Sha256,
    Sha384,
    Sha512,
}

/// USM privacy protocols (AES-CFB). DES-CBC and 3DES-CBC are refused when
/// parsing.
#[derive(Debug, Clone, Copy, PartialEq, Eq, Structural)]
pub enum PrivProtocol {
    Aes128,
    Aes192,
    Aes256,
}

impl AuthProtocol {
    pub open spec fn spec_digest_len(self) -> nat {
        match self {
            AuthProtocol::Sha1 => 20,
            AuthProtocol::Sha224 => 28,
            AuthProtocol::Sha256 => 32,
            AuthProtocol::Sha384 => 48,
            AuthProtocol::Sha512 => 64,
        }
    }

    pub open spec fn spec_auth_param_len(self) -> nat {
        match self {
            AuthProtocol::Sha1 => 12,
            AuthProtocol::Sha224 => 16,
            AuthProtocol::Sha256 => 24,
            AuthProtocol::Sha384 => 32,
            AuthProtocol::Sha512 => 48,
        }
    }

    pub open spec fn spec_name(self) -> Seq<char> {
        match self {
            AuthProtocol::Sha1 => "SHA-1"@,
            AuthProtocol::Sha224 => "SHA-224"@,
            AuthProtocol::Sha256 => "SHA-256"@,
            AuthProtocol::Sha384 => "SHA-384"@,
            AuthProtocol::Sha512 => "SHA-512"@,
        }
    }

    /// Length of the digest, in bytes; also the localized-key length.
    pub fn digest_len(self) -> (r: usize)
        ensures
            r == self.spec_digest_len(),
    {
        match self {
            AuthProtocol::Sha1 => 20,
            AuthProtocol::Sha224 => 28,
            AuthProtocol::Sha256 => 32,
            AuthProtocol::Sha384 => 48,
            AuthProtocol::Sha512 => 64,
        }
    }

    /// Length of the truncated `authenticationParameters` (RFC 7860 §4.2.2).
    pub fn auth_param_len(self) -> (r: usize)
        ensures
            r == self.spec_auth_param_len(),
    {
        match self {
            AuthProtocol::Sha1 => 12,
            AuthProtocol::Sha224 => 16,
            AuthProtocol::Sha256 => 24,
            AuthProtocol::Sha384 => 32,
            AuthProtocol::Sha512 => 48,
        }
    }

    /// The hyphenated name a user types (`SHA-1`, `SHA-256`, ...).
    pub fn to_string(&self) -> (r: String)
        ensures
            r@ == self.spec_name(),
    {
        match self {
            AuthProtocol::Sha1 => text("SHA-1"),
            AuthProtocol::Sha224 => text("SHA-224"),
            AuthProtocol::Sha256 => text("SHA-256"),
            AuthProtocol::Sha384 => text("SHA-384"),
            AuthProtocol::Sha512 => text("SHA-512"),
        }
    }

    /// Parses a protocol name, ASCII case-insensitively.
    pub fn parse(s: &str) -> (r: Result<AuthProtocol, Error>)
        ensures
            r matches Ok(p) ==> spec_parse_auth(s@) == Ok::<AuthProtocol, Seq<char>>(p),
            r matches Err(e) ==> spec_parse_auth(s@) matches Err(m) && e@ == ErrorSpec::Usage(m),
    {
        let u = upper_chars(s);
        let u = u.as_slice();
        if chars_eq_str(u, "SHA") || chars_eq_str(u, "SHA-1") || chars_eq_str(u, "SHA1") {
            Ok(AuthProtocol::Sha1)
        } else if chars_eq_str(u, "SHA-224") || chars_eq_str(u, "SHA224") {
            Ok(AuthProtocol::Sha224)
        } else if chars_eq_str(u, "SHA-256") || chars_eq_str(u, "SHA256") {
            Ok(AuthProtocol::Sha256)
        } else if chars_eq_str(u, "SHA-384") || chars_eq_str(u, "SHA384") {
            Ok(AuthProtocol::Sha384)
        } else if chars_eq_str(u, "SHA-512") || chars_eq_str(u, "SHA512") {
            Ok(AuthProtocol::Sha512)
        } else if chars_eq_str(u, "MD5") || chars_eq_str(u, "HMAC-MD5") {
            Err(Error::Usage(text(
                "HMAC-MD5 (RFC 3414 default) is not supported by this build; use SHA, SHA-224, SHA-256, SHA-384, or SHA-512 (RFC 7860).",
            )))
        } else {
            Err(Error::Usage(concat3(
                "unknown auth protocol '",
                s,
                "'; supported: SHA, SHA-224, SHA-256, SHA-384, SHA-512",
            )))
        }
    }
}

impl PrivProtocol {
    pub open spec fn spec_key_len(self) -> nat {
        match self {
            PrivProtocol::Aes128 => 16,
            PrivProtocol::Aes192 => 24,
            PrivProtocol::Aes256 => 32,
        }
    }

    pub open spec fn spec_name(self) -> Seq<char> {
        match self {
            PrivProtocol::Aes128 => "AES-128"@,
            PrivProtocol::Aes192 => "AES-192"@,
            PrivProtocol::Aes256 => "AES-256"@,
        }
    }

    /// AES key length, in bytes.
    pub fn key_len(self) -> (r: usize)
        ensures
            r == self.spec_key_len(),
    {
        match self {
            PrivProtocol::Aes128 => 16,
            PrivProtocol::Aes192 => 24,
            PrivProtocol::Aes256 => 32,
        }
    }

    /// The hyphenated name (`AES-128`, ...).
    pub fn to_string(&self) -> (r: String)
        ensures
            r@ == self.spec_name(),
    {
        match self {
            PrivProtocol::Aes128 => text("AES-128"),
            PrivProtocol::Aes192 => text("AES-192"),
            PrivProtocol::Aes256 => text("AES-256"),
        }
    }

    /// Parses a protocol name, ASCII case-insensitively.
    pub fn parse(s: &str) -> (r: Result<PrivProtocol, Error>)
        ensures
            r matches Ok(p) ==> spec_parse_priv(s@) == Ok::<PrivProtocol, Seq<char>>(p),
            r matches Err(e) ==> spec_parse_priv(s@) matches Err(m) && e@ == ErrorSpec::Usage(m),
    {
        let u = upper_chars(s);
        let u = u.as_slice();
        if chars_eq_str(u, "AES") || chars_eq_str(u, "AES-128") || chars_eq_str(u, "AES128") {
            Ok(PrivProtocol::Aes128)
        } else if chars_eq_str(u, "AES-192") || chars_eq_str(u, "AES192") {
            Ok(PrivProtocol::Aes192)
        } else if chars_eq_str(u, "AES-256") || chars_eq_str(u, "AES256") {
            Ok(PrivProtocol::Aes256)
        } else if chars_eq_str(u, "DES") || chars_eq_str(u, "DES-CBC") {
            Err(Error::Usage(text(
                "DES-CBC (RFC 3414 default) is not supported by this build; use AES, AES-192, or AES-256.",
            )))
        } else if chars_eq_str(u, "3DES") || chars_eq_str(u, "3DES-CBC") || chars_eq_str(u, "TDES") {
            Err(Error::Usage(text("3DES-CBC is not supported by this build; use AES-256.")))
        } else {
            Err(Error::Usage(concat3(
                "unknown priv protocol '",
                s,
                "'; supported: AES, AES-192, AES-256",
            )))
        }
    }
}

impl std::str::FromStr for AuthProtocol {
    type Err = Error;

    fn from_str(s: &str) -> (r: Result<AuthProtocol, Error>)
        ensures
            r matches Ok(p) ==> spec_parse_auth(s@) == Ok::<AuthProtocol, Seq<char>>(p),
            r matches Err(e) ==> spec_parse_auth(s@) matches Err(m) && e@ == ErrorSpec::Usage(m),
    {
        AuthProtocol::parse(s)
    }
}

impl std::str::FromStr for PrivProtocol {
    type Err = Error;

    fn from_str(s: &str) -> (r: Result<PrivProtocol, Error>)
        ensures
            r matches Ok(p) ==> spec_parse_priv(s@) == Ok::<PrivProtocol, Seq<char>>(p),
            r matches Err(e) ==> spec_parse_priv(s@) matches Err(m) && e@ == ErrorSpec::Usage(m),
    {
        PrivProtocol::parse(s)
    }
}

/// What a protocol name denotes, or the usage message for it. Names are
/// compared after ASCII upper-casing; MD5 gets a deprecation hint.
pub open spec fn spec_parse_auth(s: Seq<char>) -> Result<AuthProtocol, Seq<char>> {
    let u = ascii_upper(s);
    if u == "SHA"@ || u == "SHA-1"@ || u == "SHA1"@ {
        Ok(AuthProtocol::Sha1)
    } else if u == "SHA-224"@ || u == "SHA224"@ {
        Ok(AuthProtocol::Sha224)
    } else if u == "SHA-256"@ || u == "SHA256"@ {
        Ok(AuthProtocol::Sha256)
    } else if u == "SHA-384"@ || u == "SHA384"@ {
        Ok(AuthProtocol::Sha384)
    } else if u == "SHA-512"@ || u == "SHA512"@ {
        Ok(AuthProtocol::Sha512)
    } else if u == "MD5"@ || u == "HMAC-MD5"@ {
        Err(
            "HMAC-MD5 (RFC 3414 default) is not supported by this build; use SHA, SHA-224, SHA-256, SHA-384, or SHA-512 (RFC 7860)."@,
        )
    } else {
        Err("unknown auth protocol '"@ + s + "'; supported: SHA, SHA-224, SHA-256, SHA-384, SHA-512"@)
    }
}

/// What a privacy protocol name denotes, or the usage message for it.
/// DES and 3DES get deprecation hints.
pub open spec fn spec_parse_priv(s: Seq<char>) -> Result<PrivProtocol, Seq<char>> {
    let u = ascii_upper(s);
    if u == "AES"@ || u == "AES-128"@ || u == "AES128"@ {
        Ok(PrivProtocol::Aes128)
    } else if u == "AES-192"@ || u == "AES192"@ {
        Ok(PrivProtocol::Aes192)
    } else if u == "AES-256"@ || u == "AES256"@ {
        Ok(PrivProtocol::Aes256)
    } else if u == "DES"@ || u == "DES-CBC"@ {
        Err("DES-CBC (RFC 3414 default) is not supported by this build; use AES, AES-192, or AES-256."@)
    } else if u == "3DES"@ || u == "3DES-CBC"@ || u == "TDES"@ {
        Err("3DES-CBC is not supported by this build; use AES-256."@)
    } else {
        Err("unknown priv protocol '"@ + s + "'; supported: AES, AES-192, AES-256"@)
    }
}

/// Why HMAC-MD5 is refused.
pub open spec fn md5_refusal() -> Seq<char> {
    "HMAC-MD5 (RFC 3414 default) is not supported by this build; use SHA, SHA-224, SHA-256, SHA-384, or SHA-512 (RFC 7860)."@
}

/// The names of the authentication protocols: the name a protocol prints
/// as parses back to it; parsing ignores ASCII case (a name and its
/// lower-case or upper-case form denote the same protocol); and MD5 or
/// HMAC-MD5, in any case, is refused with the message that points to SHA.
pub proof fn lemma_auth_names(p: AuthProtocol, s: Seq<char>, t: Seq<char>)
    ensures
        spec_parse_auth(p.spec_name()) == Ok::<AuthProtocol, Seq<char>>(p),
        ascii_upper(s) == ascii_upper(t) && spec_parse_auth(s) is Ok ==> spec_parse_auth(t)
            == spec_parse_auth(s),
        spec_parse_auth(s) is Ok ==> spec_parse_auth(ascii_lower(s)) == spec_parse_auth(s),
        (ascii_upper(s) == "MD5"@ || ascii_upper(s) == "HMAC-MD5"@) ==> spec_parse_auth(s) == Err::<
            AuthProtocol,
            Seq<char>,
        >(md5_refusal()),
{
    reveal_strlit("SHA");
    reveal_strlit("SHA-1");
    reveal_strlit("SHA1");
    reveal_strlit("SHA-224");
    reveal_strlit("SHA224");
    reveal_strlit("SHA-256");
    reveal_strlit("SHA256");
    reveal_strlit("SHA-384");
    reveal_strlit("SHA384");
    reveal_strlit("SHA-512");
    reveal_strlit("SHA512");
    let n = p.spec_name();
    assert(ascii_upper(n) =~= n);
    match p {
        AuthProtocol::Sha1 => {
            assert(n != "SHA"@ && n =~= "SHA-1"@);
        },
        AuthProtocol::Sha224 => {
            assert(n != "SHA"@ && n != "SHA-1"@ && n != "SHA1"@);
        },
        AuthProtocol::Sha256 => {
            assert(n != "SHA"@ && n != "SHA-1"@ && n != "SHA1"@);
            assert(n[5] != "SHA-224"@[5]);
            assert(n != "SHA-224"@ && n != "SHA224"@);
        },
        AuthProtocol::Sha384 => {
            assert(n != "SHA"@ && n != "SHA-1"@ && n != "SHA1"@);
            assert(n[4] != "SHA-224"@[4] && n[4] != "SHA-256"@[4]);
            assert(n != "SHA-224"@ && n != "SHA224"@);
            assert(n != "SHA-256"@ && n != "SHA256"@);
        },
        AuthProtocol::Sha512 => {
            assert(n != "SHA"@ && n != "SHA-1"@ && n != "SHA1"@);
            assert(n[4] != "SHA-224"@[4] && n[4] != "SHA-256"@[4] && n[4] != "SHA-384"@[4]);
            assert(n != "SHA-224"@ && n != "SHA224"@);
            assert(n != "SHA-256"@ && n != "SHA256"@);
            assert(n != "SHA-384"@ && n != "SHA384"@);
        },
    }
    crate::lex::lemma_upper_of_lower(s);
    reveal_strlit("MD5");
    reveal_strlit("HMAC-MD5");
    let u = ascii_upper(s);
    if u == "MD5"@ {
        assert(u.len() == 3);
        assert(u[0] == 'M');
        assert(u != "SHA"@);
    } else if u == "HMAC-MD5"@ {
        assert(u.len() == 8);
    }
}

/// The names of the privacy protocols: the name a protocol prints as
/// parses back to it, and parsing ignores ASCII case.
pub proof fn lemma_priv_names(p: PrivProtocol, s: Seq<char>, t: Seq<char>)
    ensures
        spec_parse_priv(p.spec_name()) == Ok::<PrivProtocol, Seq<char>>(p),
        ascii_upper(s) == ascii_upper(t) && spec_parse_priv(s) is Ok ==> spec_parse_priv(t)
            == spec_parse_priv(s),
        spec_parse_priv(s) is Ok ==> spec_parse_priv(ascii_lower(s)) == spec_parse_priv(s),
{
    reveal_strlit("AES");
    reveal_strlit("AES-128");
    reveal_strlit("AES128");
    reveal_strlit("AES-192");
    reveal_strlit("AES192");
    reveal_strlit("AES-256");
    let n = p.spec_name();
    assert(ascii_upper(n) =~= n);
    match p {
        PrivProtocol::Aes128 => {
            assert(n != "AES"@ && n =~= "AES-128"@);
        },
        PrivProtocol::Aes192 => {
            assert(n[5] != "AES-128"@[5]);
            assert(n != "AES"@ && n != "AES-128"@ && n != "AES128"@);
        },
        PrivProtocol::Aes256 => {
            assert(n[4] != "AES-128"@[4] && n[4] != "AES-192"@[4]);
            assert(n != "AES"@ && n != "AES-128"@ && n != "AES128"@);
            assert(n != "AES-192"@ && n != "AES192"@);
        },
    }
    crate::lex::lemma_upper_of_lower(s);
}

// ---------------------------------------------------------------------
// Hashes, HMAC and AES-CFB of the RustCrypto crates
// ---------------------------------------------------------------------

/// The SHA-1 digest of `input` (crate `sha1`).
pub uninterp spec fn sha1_digest(input: Seq<u8>) -> Seq<u8>;

/// The SHA-224 digest of `input` (crate `sha2`).
pub uninterp spec fn sha224_digest(input: Seq<u8>) -> Seq<u8>;

/// The SHA-256 digest of `input` (crate `sha2`).
pub uninterp spec fn sha256_digest(input: Seq<u8>) -> Seq<u8>;

/// The SHA-384 digest of `input` (crate `sha2`).
pub uninterp spec fn sha384_digest(input: Seq<u8>) -> Seq<u8>;

/// The SHA-512 digest of `input` (crate `sha2`).
pub uninterp spec fn sha512_digest(input: Seq<u8>) -> Seq<u8>;

/// HMAC-SHA-1 of `message` under `key` (crate `hmac`).
pub uninterp spec fn hmac_sha1(key: Seq<u8>, message: Seq<u8>) -> Seq<u8>;

/// HMAC-SHA-224 of `message` under `key` (crate `hmac`).
pub uninterp spec fn hmac_sha224(key: Seq<u8>, message: Seq<u8>) -> Seq<u8>;

/// HMAC-SHA-256 of `message` under `key` (crate `hmac`).
pub uninterp spec fn hmac_sha256(key: Seq<u8>, message: Seq<u8>) -> Seq<u8>;

/// HMAC-SHA-384 of `message` under `key` (crate `hmac`).
pub uninterp spec fn hmac_sha384(key: Seq<u8>, message: Seq<u8>) -> Seq<u8>;

/// HMAC-SHA-512 of `message` under `key` (crate `hmac`).
pub uninterp spec fn hmac_sha512(key: Seq<u8>, message: Seq<u8>) -> Seq<u8>;

/// AES-128 in CFB-128 mode over `data` with `key` and `iv` (crates `aes`
/// and `cfb-mode`).
pub uninterp spec fn aes128_cfb(key: Seq<u8>, iv: Seq<u8>, data: Seq<u8>) -> Seq<u8>;

/// AES-192 in CFB-128 mode.
pub uninterp spec fn aes192_cfb(key: Seq<u8>, iv: Seq<u8>, data: Seq<u8>) -> Seq<u8>;

/// AES-256 in CFB-128 mode.
pub uninterp spec fn aes256_cfb(key: Seq<u8>, iv: Seq<u8>, data: Seq<u8>) -> Seq<u8>;

/// `Sha1::digest` (trait `Digest`): the 20-byte SHA-1 digest of `input`.
#[verifier::external_body]
fn sha1_of(input: &[u8]) -> (r: Vec<u8>)
    ensures
        r@ == sha1_digest(input@),
        r@.len() == 20,
{
    Sha1::digest(input).to_vec()
}

/// `Sha224::digest`: the 28-byte SHA-224 digest of `input`.
#[verifier::external_body]
fn sha224_of(input: &[u8]) -> (r: Vec<u8>)
    ensures
        r@ == sha224_digest(input@),
        r@.len() == 28,
{
    Sha224::digest(input).to_vec()
}

/// `Sha256::digest`: the 32-byte SHA-256 digest of `input`.
#[verifier::external_body]
fn sha256_of(input: &[u8]) -> (r: Vec<u8>)
    ensures
        r@ == sha256_digest(input@),
        r@.len() == 32,
{
    Sha256::digest(input).to_vec()
}

/// `Sha384::digest`: the 48-byte SHA-384 digest of `input`.
#[verifier::external_body]
fn sha384_of(input: &[u8]) -> (r: Vec<u8>)
    ensures
        r@ == sha384_digest(input@),
        r@.len() == 48,
{
    Sha384::digest(input).to_vec()
}

/// `Sha512::digest`: the 64-byte SHA-512 digest of `input`.
#[verifier::external_body]
fn sha512_of(input: &[u8]) -> (r: Vec<u8>)
    ensures
        r@ == sha512_digest(input@),
        r@.len() == 64,
{
    Sha512::digest(input).to_vec()
}

/// `Hmac::<Sha1>::new_from_slice`, `update`, `finalize`: the 20-byte tag.
/// The crate's `new_from_slice` accepts keys of every length (it always
/// returns `Ok`), so nothing is required of `key`.
#[verifier::external_body]
fn hmac_sha1_of(key: &[u8], message: &[u8]) -> (r: Vec<u8>)
    ensures
        r@ == hmac_sha1(key@, message@),
        r@.len() == 20,
{
    let mut mac = <Hmac<Sha1> as KeyInit>::new_from_slice(key).expect("HMAC accepts any key length");
    mac.update(message);
    mac.finalize().into_bytes().to_vec()
}

/// `Hmac::<Sha224>`: the 28-byte tag, as for [`hmac_sha1_of`].
#[verifier::external_body]
fn hmac_sha224_of(key: &[u8], message: &[u8]) -> (r: Vec<u8>)
    ensures
        r@ == hmac_sha224(key@, message@),
        r@.len() == 28,
{
    let mut mac = <Hmac<Sha224> as KeyInit>::new_from_slice(key).expect("HMAC accepts any key length");
    mac.update(message);
    mac.finalize().into_bytes().to_vec()
}

/// `Hmac::<Sha256>`: the 32-byte tag, as for [`hmac_sha1_of`].
#[verifier::external_body]
fn hmac_sha256_of(key: &[u8], message: &[u8]) -> (r: Vec<u8>)
    ensures
        r@ == hmac_sha256(key@, message@),
        r@.len() == 32,
{
    let mut mac = <Hmac<Sha256> as KeyInit>::new_from_slice(key).expect("HMAC accepts any key length");
    mac.update(message);
    mac.finalize().into_bytes().to_vec()
}

/// `Hmac::<Sha384>`: the 48-byte tag, as for [`hmac_sha1_of`].
#[verifier::external_body]
fn hmac_sha384_of(key: &[u8], message: &[u8]) -> (r: Vec<u8>)
    ensures
        r@ == hmac_sha384(key@, message@),
        r@.len() == 48,
{
    let mut mac = <Hmac<Sha384> as KeyInit>::new_from_slice(key).expect("HMAC accepts any key length");
    mac.update(message);
    mac.finalize().into_bytes().to_vec()
}

/// `Hmac::<Sha512>`: the 64-byte tag, as for [`hmac_sha1_of`].
#[verifier::external_body]
fn hmac_sha512_of(key: &[u8], message: &[u8]) -> (r: Vec<u8>)
    ensures
        r@ == hmac_sha512(key@, message@),
        r@.len() == 64,
{
    let mut mac = <Hmac<Sha512> as KeyInit>::new_from_slice(key).expect("HMAC accepts any key length");
    mac.update(message);
    mac.finalize().into_bytes().to_vec()
}

/// `cfb_mode::Encryptor::<aes::Aes128>::new_from_slices` then `encrypt` in
/// place. `new_from_slices` fails only on a key or IV of the wrong length,
/// hence the `requires`; CFB keeps the length of the data.
#[verifier::external_body]
fn aes128_cfb_of(key: &[u8], iv: &[u8], data: &[u8]) -> (r: Vec<u8>)
    requires
        key@.len() == 16,
        iv@.len() == 16,
    ensures
        r@ == aes128_cfb(key@, iv@, data@),
        r@.len() == data@.len(),
{
    let mut buf = data.to_vec();
    cfb_mode::Encryptor::<aes::Aes128>::new_from_slices(key, iv).expect("key and IV lengths hold").encrypt(&mut buf);
    buf
}

/// As [`aes128_cfb_of`], with `aes::Aes192` and a 24-byte key.
#[verifier::external_body]
fn aes192_cfb_of(key: &[u8], iv: &[u8], data: &[u8]) -> (r: Vec<u8>)
    requires
        key@.len() == 24,
        iv@.len() == 16,
    ensures
        r@ == aes192_cfb(key@, iv@, data@),
        r@.len() == data@.len(),
{
    let mut buf = data.to_vec();
    cfb_mode::Encryptor::<aes::Aes192>::new_from_slices(key, iv).expect("key and IV lengths hold").encrypt(&mut buf);
    buf
}

/// As [`aes128_cfb_of`], with `aes::Aes256` and a 32-byte key.
#[verifier::external_body]
fn aes256_cfb_of(key: &[u8], iv: &[u8], data: &[u8]) -> (r: Vec<u8>)
    requires
        key@.len() == 32,
        iv@.len() == 16,
    ensures
        r@ == aes256_cfb(key@, iv@, data@),
        r@.len() == data@.len(),
{
    let mut buf = data.to_vec();
    cfb_mode::Encryptor::<aes::Aes256>::new_from_slices(key, iv).expect("key and IV lengths hold").encrypt(&mut buf);
    buf
}

/// The digest of `input` under the protocol's hash function.
pub open spec fn digest_of(proto: AuthProtocol, input: Seq<u8>) -> Seq<u8> {
    match proto {
        AuthProtocol::Sha1 => sha1_digest(input),
        AuthProtocol::Sha224 => sha224_digest(input),
        AuthProtocol::Sha256 => sha256_digest(input),
        AuthProtocol::Sha384 => sha384_digest(input),
        AuthProtocol::Sha512 => sha512_digest(input),
    }
}

/// The full HMAC of `message` under `key` with the protocol's hash.
pub open spec fn hmac_of(proto: AuthProtocol, key: Seq<u8>, message: Seq<u8>) -> Seq<u8> {
    match proto {
        AuthProtocol::Sha1 => hmac_sha1(key, message),
        AuthProtocol::Sha224 => hmac_sha224(key, message),
        AuthProtocol::Sha256 => hmac_sha256(key, message),
        AuthProtocol::Sha384 => hmac_sha384(key, message),
        AuthProtocol::Sha512 => hmac_sha512(key, message),
    }
}

/// AES-CFB encryption of `data` with the protocol's key size.
pub open spec fn cfb_of(proto: PrivProtocol, key: Seq<u8>, iv: Seq<u8>, data: Seq<u8>) -> Seq<u8> {
    match proto {
        PrivProtocol::Aes128 => aes128_cfb(key, iv, data),
        PrivProtocol::Aes192 => aes192_cfb(key, iv, data),
        PrivProtocol::Aes256 => aes256_cfb(key, iv, data),
    }
}

/// The digest of `input` under the protocol's hash function.
pub fn hash(input: &[u8], proto: AuthProtocol) -> (r: Vec<u8>)
    ensures
        r@ == digest_of(proto, input@),
        r@.len() == proto.spec_digest_len(),
{
    match proto {
        AuthProtocol::Sha1 => sha1_of(input),
        AuthProtocol::Sha224 => sha224_of(input),
        AuthProtocol::Sha256 => sha256_of(input),
        AuthProtocol::Sha384 => sha384_of(input),
        AuthProtocol::Sha512 => sha512_of(input),
    }
}

fn hmac(key: &[u8], message: &[u8], proto: AuthProtocol) -> (r: Vec<u8>)
    ensures
        r@ == hmac_of(proto, key@, message@),
        r@.len() == proto.spec_digest_len(),
{
    match proto {
        AuthProtocol::Sha1 => hmac_sha1_of(key, message),
        AuthProtocol::Sha224 => hmac_sha224_of(key, message),
        AuthProtocol::Sha256 => hmac_sha256_of(key, message),
        AuthProtocol::Sha384 => hmac_sha384_of(key, message),
        AuthProtocol::Sha512 => hmac_sha512_of(key, message),
    }
}

// ---------------------------------------------------------------------
// Password localization
// ---------------------------------------------------------------------

/// RFC 3414 §11.2: USM passwords are at least 8 octets.
pub const MIN_USM_PASSWORD_LEN: usize = 8;

/// RFC 3414 §A.2: the password is repeated to fill 1 MiB before hashing.
pub const PASSWORD_EXPANSION_LEN: usize = 1048576;

/// The password repeated (the last copy cut short) to
/// `PASSWORD_EXPANSION_LEN` bytes.
pub open spec fn expand_password(pw: Seq<u8>) -> Seq<u8> {
    Seq::new(PASSWORD_EXPANSION_LEN as nat, |i: int| pw[i % (pw.len() as int)])
}

/// Step 1 and 2 of RFC 3414 §A.2: the digest of the expanded password (of
/// nothing, for an empty password).
pub open spec fn intermediate_digest(pw: Seq<u8>, proto: AuthProtocol) -> Seq<u8> {
    if pw.len() == 0 {
        digest_of(proto, Seq::<u8>::empty())
    } else {
        digest_of(proto, expand_password(pw))
    }
}

/// Step 3: `hash(digest || engine-ID || digest)`, the key localized to the
/// engine.
pub open spec fn localized_key(pw: Seq<u8>, engine_id: Seq<u8>, proto: AuthProtocol) -> Seq<u8> {
    let d = intermediate_digest(pw, proto);
    digest_of(proto, d + engine_id + d)
}

pub open spec fn short_password_message(len: nat) -> Seq<char> {
    "USM password must be at least 8 characters (RFC 3414 §11.2); got "@ + dec(len)
}

pub open spec fn key_too_short_message(auth: AuthProtocol, privp: PrivProtocol) -> Seq<char> {
    "auth protocol "@ + auth.spec_name() + " produces a "@ + dec(auth.spec_digest_len())
        + "-byte localized key, but priv protocol "@ + privp.spec_name() + " requires "@ + dec(
        privp.spec_key_len(),
    ) + " bytes. Use SHA-224 or higher with AES-192, or SHA-256 or higher with AES-256."@
}

fn password_intermediate_digest(pw: &[u8], proto: AuthProtocol) -> (r: Vec<u8>)
    ensures
        r@ == intermediate_digest(pw@, proto),
        r@.len() == proto.spec_digest_len(),
{
    if pw.len() == 0 {
        let empty: Vec<u8> = Vec::new();
        assert(empty@ =~= Seq::<u8>::empty());
        return hash(empty.as_slice(), proto);
    }
    let mut buf: Vec<u8> = Vec::with_capacity(PASSWORD_EXPANSION_LEN);
    let mut i: usize = 0;
    while i < PASSWORD_EXPANSION_LEN
        invariant
            pw@.len() > 0,
            0 <= i <= PASSWORD_EXPANSION_LEN,
            buf@ == expand_password(pw@).subrange(0, i as int),
        decreases PASSWORD_EXPANSION_LEN - i,
    {
        buf.push(pw[i % pw.len()]);
        i = i + 1;
        assert(buf@ =~= expand_password(pw@).subrange(0, i as int));
    }
    assert(buf@ =~= expand_password(pw@));
    hash(buf.as_slice(), proto)
}

/// Localizes `password` to `engine_id` (RFC 3414 §A.2, RFC 7860 §3.4).
/// Passwords shorter than 8 bytes are refused (RFC 3414 §11.2).
pub fn password_to_key(password: &str, engine_id: &EngineId, proto: AuthProtocol) -> (r: Result<
    Vec<u8>,
    Error,
>)
    ensures
        r is Ok <==> password.spec_bytes().len() >= MIN_USM_PASSWORD_LEN,
        r matches Ok(k) ==> k@ == localized_key(password.spec_bytes(), engine_id@, proto)
            && k@.len() == proto.spec_digest_len(),
        r matches Err(e) ==> e@ == ErrorSpec::Usage(
            short_password_message(password.spec_bytes().len()),
        ),
{
    let pw = password.as_bytes();
    if pw.len() < MIN_USM_PASSWORD_LEN {
        let mut m = text("USM password must be at least 8 characters (RFC 3414 §11.2); got ");
        push_dec(&mut m, pw.len() as u64);
        return Err(Error::Usage(m));
    }
    let d = password_intermediate_digest(pw, proto);
    let mut localizer: Vec<u8> = Vec::new();
    crate::ber::push_all(&mut localizer, d.as_slice());
    crate::ber::push_all(&mut localizer, engine_id.as_bytes());
    crate::ber::push_all(&mut localizer, d.as_slice());
    Ok(hash(localizer.as_slice(), proto))
}

/// Derives a privacy key: the password localized with the authentication
/// protocol's hash (RFC 3826 §3.1.2.1), cut to the AES key length. Refused
/// when that digest is shorter than the key.
pub fn priv_key_from_password(
    password: &str,
    engine_id: &EngineId,
    auth_proto: AuthProtocol,
    priv_proto: PrivProtocol,
) -> (r: Result<Vec<u8>, Error>)
    ensures
        r is Ok <==> password.spec_bytes().len() >= MIN_USM_PASSWORD_LEN
            && auth_proto.spec_digest_len() >= priv_proto.spec_key_len(),
        r matches Ok(k) ==> k@ == localized_key(password.spec_bytes(), engine_id@, auth_proto).take(
            priv_proto.spec_key_len() as int,
        ),
        r matches Ok(k) ==> k@.len() == priv_proto.spec_key_len(),
        r matches Err(e) ==> e@ == ErrorSpec::Usage(
            if password.spec_bytes().len() < MIN_USM_PASSWORD_LEN {
                short_password_message(password.spec_bytes().len())
            } else {
                key_too_short_message(auth_proto, priv_proto)
            },
        ),
{
    let key = password_to_key(password, engine_id, auth_proto)?;
    let need = priv_proto.key_len();
    if key.len() < need {
        let mut m = text("auth protocol ");
        m.append(auth_proto.to_string().as_str());
        m.append(" produces a ");
        push_dec(&mut m, key.len() as u64);
        m.append("-byte localized key, but priv protocol ");
        m.append(priv_proto.to_string().as_str());
        m.append(" requires ");
        push_dec(&mut m, need as u64);
        m.append(
            " bytes. Use SHA-224 or higher with AES-192, or SHA-256 or higher with AES-256.",
        );
        return Err(Error::Usage(m));
    }
    Ok(prefix(key.as_slice(), need))
}

/// The first `n` bytes of `v`.
pub fn prefix(v: &[u8], n: usize) -> (r: Vec<u8>)
    requires
        n <= v@.len(),
    ensures
        r@ == v@.take(n as int),
{
    let mut r: Vec<u8> = Vec::with_capacity(n);
    let mut i: usize = 0;
    while i < n
        invariant
            n <= v@.len(),
            0 <= i <= n,
            r@ == v@.take(i as int),
        decreases n - i,
    {
        r.push(v[i]);
        i = i + 1;
        assert(r@ =~= v@.take(i as int));
    }
    r
}

// ---------------------------------------------------------------------
// Authentication tag and privacy
// ---------------------------------------------------------------------

/// The truncated HMAC for `authenticationParameters` (RFC 7860 §4.2.2),
/// computed over the whole message with a zero placeholder in that field.
/// The key is the localized key, of the digest's length.
pub fn auth_sign(message: &[u8], auth_key: &[u8], proto: AuthProtocol) -> (r: Vec<u8>)
    requires
        auth_key@.len() == proto.spec_digest_len(),
    ensures
        r@ == hmac_of(proto, auth_key@, message@).take(proto.spec_auth_param_len() as int),
        r@.len() == proto.spec_auth_param_len(),
{
    let full = hmac(auth_key, message, proto);
    prefix(full.as_slice(), proto.auth_param_len())
}

/// The big-endian bytes of `v`, `n` of them.
pub open spec fn be_bytes(v: nat, n: nat) -> Seq<u8>
    decreases n,
{
    if n == 0 {
        Seq::<u8>::empty()
    } else {
        be_bytes(v / 256, (n - 1) as nat).push((v % 256) as u8)
    }
}

/// RFC 3826 §3.1.2.1: `engineBoots (4 BE) || engineTime (4 BE) || salt (8 BE)`.
pub open spec fn aes_iv(engine_boots: u32, engine_time: u32, salt: u64) -> Seq<u8> {
    be_bytes(engine_boots as nat, 4) + be_bytes(engine_time as nat, 4) + be_bytes(salt as nat, 8)
}

/// Appends the `n` low-order bytes of `v`, most significant first.
pub fn push_be(out: &mut Vec<u8>, v: u64, n: usize)
    requires
        n <= 8,
    ensures
        final(out)@ == old(out)@ + be_bytes(v as nat, n as nat),
    decreases n,
{
    if n > 0 {
        push_be(out, v / 256, n - 1);
        out.push((v % 256) as u8);
        assert(final(out)@ =~= old(out)@ + be_bytes(v as nat, n as nat));
    } else {
        assert(final(out)@ =~= old(out)@ + be_bytes(v as nat, n as nat));
    }
}

/// The AES-CFB initialization vector.
pub fn make_aes_iv(engine_boots: u32, engine_time: u32, salt: u64) -> (r: [u8; 16])
    ensures
        r@ == aes_iv(engine_boots, engine_time, salt),
{
    let mut b: Vec<u8> = Vec::new();
    push_be(&mut b, engine_boots as u64, 4);
    push_be(&mut b, engine_time as u64, 4);
    push_be(&mut b, salt, 8);
    assert(b@.len() == 16) by {
        assert(be_bytes(engine_boots as nat, 4).len() == 4) by { lemma_be_len(engine_boots as nat, 4); }
        assert(be_bytes(engine_time as nat, 4).len() == 4) by { lemma_be_len(engine_time as nat, 4); }
        assert(be_bytes(salt as nat, 8).len() == 8) by { lemma_be_len(salt as nat, 8); }
    }
    let r = [b[0], b[1], b[2], b[3], b[4], b[5], b[6], b[7], b[8], b[9], b[10], b[11], b[12], b[13], b[14], b[15]];
    assert(r@ =~= b@);
    r
}

pub proof fn lemma_be_len(v: nat, n: nat)
    ensures
        be_bytes(v, n).len() == n,
    decreases n,
{
    if n > 0 {
        lemma_be_len(v / 256, (n - 1) as nat);
    }
}

/// Only the first `key_len` bytes of a privacy key reach the cipher: two
/// keys that agree on them encrypt alike.
pub proof fn lemma_priv_key_tail_ignored(
    proto: PrivProtocol,
    k1: Seq<u8>,
    k2: Seq<u8>,
    iv: Seq<u8>,
    data: Seq<u8>,
)
    requires
        k1.len() >= proto.spec_key_len(),
        k2.len() >= proto.spec_key_len(),
        k1.take(proto.spec_key_len() as int) == k2.take(proto.spec_key_len() as int),
    ensures
        cfb_of(proto, k1.take(proto.spec_key_len() as int), iv, data) == cfb_of(
            proto,
            k2.take(proto.spec_key_len() as int),
            iv,
            data,
        ),
{
}

/// RFC 3414 §A.2 (RFC 7860 §4.2.1 for SHA-2), for every protocol alike:
/// with `x` the password repeated to 1 MiB and `d` the digest of `x`, the
/// localized key is the digest of `d || engine-ID || d`, each step with
/// the protocol's own hash.
pub proof fn lemma_localization(pw: Seq<u8>, engine_id: Seq<u8>, x: Seq<u8>)
    requires
        pw.len() > 0,
        x.len() == 1048576,
        forall|i: int| 0 <= i < x.len() ==> #[trigger] x[i] == pw[i % (pw.len() as int)],
    ensures
        localized_key(pw, engine_id, AuthProtocol::Sha1) == sha1_digest(
            sha1_digest(x) + engine_id + sha1_digest(x),
        ),
        localized_key(pw, engine_id, AuthProtocol::Sha224) == sha224_digest(
            sha224_digest(x) + engine_id + sha224_digest(x),
        ),
        localized_key(pw, engine_id, AuthProtocol::Sha256) == sha256_digest(
            sha256_digest(x) + engine_id + sha256_digest(x),
        ),
        localized_key(pw, engine_id, AuthProtocol::Sha384) == sha384_digest(
            sha384_digest(x) + engine_id + sha384_digest(x),
        ),
        localized_key(pw, engine_id, AuthProtocol::Sha512) == sha512_digest(
            sha512_digest(x) + engine_id + sha512_digest(x),
        ),
{
    assert(expand_password(pw) =~= x);
}

/// RFC 3414 §6.3.1 and RFC 7860 §4.2.2: the tag of a message is the HMAC
/// with the protocol's own hash (HMAC-SHA-1 for SHA, HMAC-SHA-256 for
/// SHA-256, ...), cut to 12, 16, 24, 32 or 48 octets.
pub proof fn lemma_auth_tag(key: Seq<u8>, message: Seq<u8>)
    ensures
        hmac_of(AuthProtocol::Sha1, key, message).take(AuthProtocol::Sha1.spec_auth_param_len() as int)
            == hmac_sha1(key, message).take(12),
        hmac_of(AuthProtocol::Sha224, key, message).take(
            AuthProtocol::Sha224.spec_auth_param_len() as int,
        ) == hmac_sha224(key, message).take(16),
        hmac_of(AuthProtocol::Sha256, key, message).take(
            AuthProtocol::Sha256.spec_auth_param_len() as int,
        ) == hmac_sha256(key, message).take(24),
        hmac_of(AuthProtocol::Sha384, key, message).take(
            AuthProtocol::Sha384.spec_auth_param_len() as int,
        ) == hmac_sha384(key, message).take(32),
        hmac_of(AuthProtocol::Sha512, key, message).take(
            AuthProtocol::Sha512.spec_auth_param_len() as int,
        ) == hmac_sha512(key, message).take(48),
{
}

/// Encrypts a scopedPDU (RFC 3826) with the first `key_len` bytes of
/// `priv_key`; the IV is built from the engine boots, time and salt.
pub fn priv_encrypt(
    plaintext: &[u8],
    priv_key: &[u8],
    engine_boots: u32,
    engine_time: u32,
    salt: u64,
    proto: PrivProtocol,
) -> (r: Vec<u8>)
    requires
        priv_key@.len() >= proto.spec_key_len(),
    ensures
        r@ == cfb_of(
            proto,
            priv_key@.take(proto.spec_key_len() as int),
            aes_iv(engine_boots, engine_time, salt),
            plaintext@,
        ),
        r@.len() == plaintext@.len(),
{
    let iv = make_aes_iv(engine_boots, engine_time, salt);
    let key = prefix(priv_key, proto.key_len());
    match proto {
        PrivProtocol::Aes128 => aes128_cfb_of(key.as_slice(), &iv, plaintext),
        PrivProtocol::Aes192 => aes192_cfb_of(key.as_slice(), &iv, plaintext),
        PrivProtocol::Aes256 => aes256_cfb_of(key.as_slice(), &iv, plaintext),
    }
}

/// A fresh 8-byte salt for `privacyParameters`; RFC 3826 asks only for
/// uniqueness within an (engineBoots, engineTime) window. Every `u64` can
/// come out, so the draw is all there is to state.
pub fn fresh_salt() -> u64 {
    random_u64()
}

} // verus!
