//! The command line as values: the SNMP version, the v3 security level,
//! the parsed options, their cross-checks, and the AGENT text.
//!
//! Reading argv and resolving host names happen outside; what is decided
//! about the values happens here.

use vstd::prelude::*;
use vstd::string::*;
use crate::error::{Error, ErrorSpec};
use crate::lex::{
    ascii_upper, chars_eq_str, chars_of, parse_unsigned, parse_unsigned_range, str_eq, upper_chars,
};
use crate::net::{parse_ipv4, spec_parse_ipv4, Ipv4Addr};
use crate::text::{concat3, push_dec, text};
use crate::usm::{short_password_message, AuthProtocol, PrivProtocol, MIN_USM_PASSWORD_LEN};
use vstd::utf8::encode_utf8;

verus! {

/// The default trap port.
pub const DEFAULT_TRAP_PORT: u16 = 162;

#[derive(Debug, Clone, Copy, PartialEq, Eq, Structural)]
pub enum SnmpVersion {
    V1,
    V2c,
    V3,
}

/// SNMPv3 security level (`-l`).
#[derive(Debug, Clone, Copy, PartialEq, Eq, Structural)]
pub enum SecurityLevel {
    NoAuthNoPriv,
    AuthNoPriv,
    AuthPriv,
}

pub open spec fn spec_parse_version(s: Seq<char>) -> Result<SnmpVersion, Seq<char>> {
    if s == "1"@ {
        Ok(SnmpVersion::V1)
    } else if s == "2c"@ {
        Ok(SnmpVersion::V2c)
    } else if s == "3"@ {
        Ok(SnmpVersion::V3)
    } else {
        Err(
            "unsupported SNMP version '"@ + s
                + "'; only '1', '2c' and '3' are supported in this build"@,
        )
    }
}

pub open spec fn spec_parse_level(s: Seq<char>) -> Result<SecurityLevel, Seq<char>> {
    let u = ascii_upper(s);
    if u == "NOAUTHNOPRIV"@ {
        Ok(SecurityLevel::NoAuthNoPriv)
    } else if u == "AUTHNOPRIV"@ {
        Ok(SecurityLevel::AuthNoPriv)
    } else if u == "AUTHPRIV"@ {
        Ok(SecurityLevel::AuthPriv)
    } else {
        Err(
            "unknown security level '"@ + s
                + "'; supported: noAuthNoPriv, authNoPriv, authPriv"@,
        )
    }
}

impl SnmpVersion {
    /// Parses `-v`: `1`, `2c` or `3`.
    pub fn parse(s: &str) -> (r: Result<SnmpVersion, Error>)
        ensures
            r matches Ok(v) ==> spec_parse_version(s@) == Ok::<SnmpVersion, Seq<char>>(v),
            r matches Err(e) ==> spec_parse_version(s@) matches Err(m) && e@ == ErrorSpec::Usage(m),
    {
        if str_eq(s, "1") {
            Ok(SnmpVersion::V1)
        } else if str_eq(s, "2c") {
            Ok(SnmpVersion::V2c)
        } else if str_eq(s, "3") {
            Ok(SnmpVersion::V3)
        } else {
            Err(Error::Usage(concat3(
                "unsupported SNMP version '",
                s,
                "'; only '1', '2c' and '3' are supported in this build",
            )))
        }
    }
}

impl SecurityLevel {
    /// Parses `-l`: Net-SNMP's level names, ASCII case-insensitively.
    pub fn parse(s: &str) -> (r: Result<SecurityLevel, Error>)
        ensures
            r matches Ok(v) ==> spec_parse_level(s@) == Ok::<SecurityLevel, Seq<char>>(v),
            r matches Err(e) ==> spec_parse_level(s@) matches Err(m) && e@ == ErrorSpec::Usage(m),
    {
        let u = upper_chars(s);
        if chars_eq_str(u.as_slice(), "NOAUTHNOPRIV") {
            Ok(SecurityLevel::NoAuthNoPriv)
        } else if chars_eq_str(u.as_slice(), "AUTHNOPRIV") {
            Ok(SecurityLevel::AuthNoPriv)
        } else if chars_eq_str(u.as_slice(), "AUTHPRIV") {
            Ok(SecurityLevel::AuthPriv)
        } else {
            Err(Error::Usage(concat3(
                "unknown security level '",
                s,
                "'; supported: noAuthNoPriv, authNoPriv, authPriv",
            )))
        }
    }
}

impl std::str::FromStr for SnmpVersion {
    type Err = Error;

    fn from_str(s: &str) -> (r: Result<SnmpVersion, Error>)
        ensures
            r matches Ok(v) ==> spec_parse_version(s@) == Ok::<SnmpVersion, Seq<char>>(v),
            r matches Err(e) ==> spec_parse_version(s@) matches Err(m) && e@ == ErrorSpec::Usage(m),
    {
        SnmpVersion::parse(s)
    }
}

impl std::str::FromStr for SecurityLevel {
    type Err = Error;

    fn from_str(s: &str) -> (r: Result<SecurityLevel, Error>)
        ensures
            r matches Ok(v) ==> spec_parse_level(s@) == Ok::<SecurityLevel, Seq<char>>(v),
            r matches Err(e) ==> spec_parse_level(s@) matches Err(m) && e@ == ErrorSpec::Usage(m),
    {
        SecurityLevel::parse(s)
    }
}

/// The parsed command line.
#[derive(Debug, Clone)]
pub struct Cli {
    pub version: SnmpVersion,
    /// Community string (v1 / v2c; not used under v3).
    pub community: String,
    /// Transport-level resends.
    pub retries: u8,
    /// Accepted for Net-SNMP compatibility; traps are unconfirmed.
    pub timeout: u32,
    /// Spoofed L3 source IPv4 address, as typed.
    pub src_addr: Option<String>,
    pub src_port: Option<u16>,
    pub debug_print_pdu: bool,
    /// Destination: `host`, `host:port` or `udp:host:port`.
    pub agent: String,
    /// Version-dependent positionals after AGENT.
    pub trap_args: Vec<String>,
    pub security_level: Option<SecurityLevel>,
    pub user_name: Option<String>,
    pub auth_protocol: Option<AuthProtocol>,
    pub auth_password: Option<String>,
    pub priv_protocol: Option<PrivProtocol>,
    pub priv_password: Option<String>,
    pub context_engine_id: Option<String>,
    pub authoritative_engine_id: Option<String>,
    pub context_name: Option<String>,
}

impl Cli {
    /// `--src-addr` as an IPv4 address, when given and well formed.
    pub open spec fn spec_src_addr(self) -> Option<Ipv4Addr> {
        match self.src_addr {
            Some(s) => spec_parse_ipv4(s@),
            None => None,
        }
    }

    pub fn src_addr_v4(&self) -> (r: Option<Ipv4Addr>)
        ensures
            r == self.spec_src_addr(),
    {
        match &self.src_addr {
            Some(s) => parse_ipv4(s.as_str()),
            None => None,
        }
    }
}

pub open spec fn str_bytes(s: String) -> Seq<u8> {
    encode_utf8(s@)
}

/// The first SNMPv3-only option given, by its flag.
pub open spec fn first_v3_flag(cli: Cli) -> Option<Seq<char>> {
    if cli.security_level is Some {
        Some("-l"@)
    } else if cli.user_name is Some {
        Some("-u"@)
    } else if cli.auth_protocol is Some {
        Some("-a"@)
    } else if cli.auth_password is Some {
        Some("-A"@)
    } else if cli.priv_protocol is Some {
        Some("-x"@)
    } else if cli.priv_password is Some {
        Some("-X"@)
    } else if cli.context_engine_id is Some {
        Some("-e"@)
    } else if cli.authoritative_engine_id is Some {
        Some("-E"@)
    } else if cli.context_name is Some {
        Some("-n"@)
    } else {
        None
    }
}

/// The SNMPv3 option rules: a user; `-a` with `-A` and `-x` with `-X`;
/// `-a` for the authenticating levels, `-x` for `authPriv`; passwords of
/// at least 8 bytes (RFC 3414 §11.2).
pub open spec fn v3_option_error(cli: Cli) -> Option<Seq<char>> {
    let level = match cli.security_level {
        Some(l) => l,
        None => SecurityLevel::NoAuthNoPriv,
    };
    if cli.user_name is None {
        Some("-u <USER> is required with -v 3"@)
    } else if level != SecurityLevel::NoAuthNoPriv && cli.auth_protocol is None {
        Some("-a <AUTH-PROTO> is required with -l authNoPriv or -l authPriv"@)
    } else if cli.auth_protocol is Some && cli.auth_password is None {
        Some("-A <AUTH-PASS> is required when -a is set"@)
    } else if level == SecurityLevel::AuthPriv && cli.priv_protocol is None {
        Some("-x <PRIV-PROTO> is required with -l authPriv"@)
    } else if cli.priv_protocol is Some && cli.priv_password is None {
        Some("-X <PRIV-PASS> is required when -x is set"@)
    } else if cli.auth_password matches Some(p) && str_bytes(p).len() < MIN_USM_PASSWORD_LEN {
        Some("-A: "@ + short_password_message(str_bytes(cli.auth_password->Some_0).len()))
    } else if cli.priv_password matches Some(p) && str_bytes(p).len() < MIN_USM_PASSWORD_LEN {
        Some("-X: "@ + short_password_message(str_bytes(cli.priv_password->Some_0).len()))
    } else {
        None
    }
}

/// What `validate` refuses, in the order it checks.
pub open spec fn validation_error(cli: Cli, src_addr_is_ipv6: bool) -> Option<Seq<char>> {
    if cli.version != SnmpVersion::V3 && cli.community@.len() == 0 {
        Some("community string (-c) must be non-empty for SNMPv1 and SNMPv2c"@)
    } else if cli.timeout == 0 {
        Some("--timeout must be > 0 (in seconds)"@)
    } else if cli.src_port == Some(0u16) {
        Some(
            "--src-port 0 is not allowed; on UDP it means 'kernel-selected ephemeral'. Omit the flag to get an ephemeral port."@,
        )
    } else if cli.src_addr matches Some(s) && spec_parse_ipv4(s@) is None {
        if src_addr_is_ipv6 {
            Some("--src-addr accepts IPv4 only; IPv6 source spoofing is not supported"@)
        } else {
            Some("--src-addr must be a valid IPv4 literal, got '"@ + cli.src_addr->Some_0@ + "'"@)
        }
    } else if cli.version != SnmpVersion::V3 {
        match first_v3_flag(cli) {
            Some(f) => Some(f + " is only valid with -v 3"@),
            None => None,
        }
    } else {
        v3_option_error(cli)
    }
}

fn short_password_error(flag: &str, pw: &String) -> (r: Error)
    ensures
        r@ == ErrorSpec::Usage(flag@ + ": "@ + short_password_message(str_bytes(*pw).len())),
{
    let mut m = text(flag);
    m.append(": ");
    m.append("USM password must be at least 8 characters (RFC 3414 §11.2); got ");
    push_dec(&mut m, pw.as_str().as_bytes().len() as u64);
    assert(m@ =~= flag@ + ": "@ + short_password_message(str_bytes(*pw).len()));
    Error::Usage(m)
}

impl Cli {
    /// The cross-checks that argument parsing alone does not make; under
    /// `-v 3` a missing `-l` becomes `noAuthNoPriv`. `src_addr_is_ipv6`
    /// tells whether `--src-addr` is an IPv6 literal, for the message.
    pub fn validate(self, src_addr_is_ipv6: bool) -> (r: Result<Cli, Error>)
        ensures
            r is Ok <==> validation_error(self, src_addr_is_ipv6) is None,
            r matches Err(e) ==> validation_error(self, src_addr_is_ipv6) matches Some(m) && e@
                == ErrorSpec::Usage(m),
            r matches Ok(c) ==> c == (Cli {
                security_level: if self.version == SnmpVersion::V3 && self.security_level is None {
                    Some(SecurityLevel::NoAuthNoPriv)
                } else {
                    self.security_level
                },
                ..self
            }),
    {
        if self.version != SnmpVersion::V3 && self.community.as_str().unicode_len() == 0 {
            return Err(Error::Usage(text(
                "community string (-c) must be non-empty for SNMPv1 and SNMPv2c",
            )));
        }
        if self.timeout == 0 {
            return Err(Error::Usage(text("--timeout must be > 0 (in seconds)")));
        }
        if self.src_port == Some(0u16) {
            return Err(Error::Usage(text(
                "--src-port 0 is not allowed; on UDP it means 'kernel-selected ephemeral'. Omit the flag to get an ephemeral port.",
            )));
        }
        if let Some(s) = &self.src_addr {
            if parse_ipv4(s.as_str()).is_none() {
                if src_addr_is_ipv6 {
                    return Err(Error::Usage(text(
                        "--src-addr accepts IPv4 only; IPv6 source spoofing is not supported",
                    )));
                }
                return Err(Error::Usage(concat3(
                    "--src-addr must be a valid IPv4 literal, got '",
                    s.as_str(),
                    "'",
                )));
            }
        }
        if self.version != SnmpVersion::V3 {
            let flag: Option<&str> = if self.security_level.is_some() {
                Some("-l")
            } else if self.user_name.is_some() {
                Some("-u")
            } else if self.auth_protocol.is_some() {
                Some("-a")
            } else if self.auth_password.is_some() {
                Some("-A")
            } else if self.priv_protocol.is_some() {
                Some("-x")
            } else if self.priv_password.is_some() {
                Some("-X")
            } else if self.context_engine_id.is_some() {
                Some("-e")
            } else if self.authoritative_engine_id.is_some() {
                Some("-E")
            } else if self.context_name.is_some() {
                Some("-n")
            } else {
                None
            };
            return match flag {
                Some(f) => {
                    let mut m = text(f);
                    m.append(" is only valid with -v 3");
                    Err(Error::Usage(m))
                },
                None => Ok(self),
            };
        }
        let level = match self.security_level {
            Some(l) => l,
            None => SecurityLevel::NoAuthNoPriv,
        };
        if self.user_name.is_none() {
            return Err(Error::Usage(text("-u <USER> is required with -v 3")));
        }
        if level != SecurityLevel::NoAuthNoPriv && self.auth_protocol.is_none() {
            return Err(Error::Usage(text(
                "-a <AUTH-PROTO> is required with -l authNoPriv or -l authPriv",
            )));
        }
        if self.auth_protocol.is_some() && self.auth_password.is_none() {
            return Err(Error::Usage(text("-A <AUTH-PASS> is required when -a is set")));
        }
        if level == SecurityLevel::AuthPriv && self.priv_protocol.is_none() {
            return Err(Error::Usage(text("-x <PRIV-PROTO> is required with -l authPriv")));
        }
        if self.priv_protocol.is_some() && self.priv_password.is_none() {
            return Err(Error::Usage(text("-X <PRIV-PASS> is required when -x is set")));
        }
        if let Some(p) = &self.auth_password {
            if p.as_str().as_bytes().len() < MIN_USM_PASSWORD_LEN {
                proof {
                    reveal_strlit("-A");
                    reveal_strlit(": ");
                    reveal_strlit("-A: ");
                    assert("-A"@ + ": "@ =~= "-A: "@);
                }
                return Err(short_password_error("-A", p));
            }
        }
        if let Some(p) = &self.priv_password {
            if p.as_str().as_bytes().len() < MIN_USM_PASSWORD_LEN {
                proof {
                    reveal_strlit("-X");
                    reveal_strlit(": ");
                    reveal_strlit("-X: ");
                    assert("-X"@ + ": "@ =~= "-X: "@);
                }
                return Err(short_password_error("-X", p));
            }
        }
        let mut c = self;
        c.security_level = Some(level);
        Ok(c)
    }
}

// ---------------------------------------------------------------------
// AGENT
// ---------------------------------------------------------------------

pub open spec fn count_char(s: Seq<char>, c: char) -> nat
    decreases s.len(),
{
    if s.len() == 0 {
        0
    } else {
        count_char(s.drop_last(), c) + if s.last() == c { 1nat } else { 0nat }
    }
}

/// The index of the last `c` in `s`, if any.
pub open spec fn last_index(s: Seq<char>, c: char) -> Option<int>
    decreases s.len(),
{
    if s.len() == 0 {
        None
    } else if s.last() == c {
        Some(s.len() - 1)
    } else {
        last_index(s.drop_last(), c)
    }
}

/// AGENT without a leading `udp:`.
pub open spec fn strip_udp(s: Seq<char>) -> Seq<char> {
    if s.len() >= 4 && s.take(4) == "udp:"@ {
        s.skip(4)
    } else {
        s
    }
}

/// The host text and port AGENT names: `udp:` is dropped, anything with a
/// `[` in front or two colons is refused as IPv6, `host:port` splits at the
/// last colon (when the host part is not empty), otherwise the port is 162.
pub open spec fn spec_split_agent(agent: Seq<char>) -> Result<(Seq<char>, u16), Seq<char>> {
    let s = strip_udp(agent);
    if (s.len() > 0 && s[0] == '[') || count_char(s, ':') >= 2 {
        Err("AGENT '"@ + agent + "' looks like IPv6; only IPv4 destinations are supported"@)
    } else {
        match last_index(s, ':') {
            Some(k) => if k > 0 {
                match parse_unsigned(s.skip(k + 1), u16::MAX as nat) {
                    Ok(p) => Ok((s.take(k), p as u16)),
                    Err(_) => Err("invalid port in AGENT: "@ + agent),
                }
            } else {
                Ok((s, DEFAULT_TRAP_PORT))
            },
            None => Ok((s, DEFAULT_TRAP_PORT)),
        }
    }
}

proof fn lemma_count_last(s: Seq<char>, c: char, i: int)
    requires
        0 <= i < s.len(),
    ensures
        count_char(s.take(i + 1), c) == count_char(s.take(i), c) + if s[i] == c { 1nat } else { 0nat },
        last_index(s.take(i + 1), c) == if s[i] == c { Some(i) } else { last_index(s.take(i), c) },
{
    assert(s.take(i + 1).drop_last() =~= s.take(i));
    assert(s.take(i + 1).last() == s[i]);
}

/// Splits AGENT into the host text to resolve and the port.
pub fn split_agent(agent: &str) -> (r: Result<(String, u16), Error>)
    ensures
        r matches Ok((h, p)) ==> spec_split_agent(agent@) == Ok::<(Seq<char>, u16), Seq<char>>((h@, p)),
        r matches Err(e) ==> spec_split_agent(agent@) matches Err(m) && e@ == ErrorSpec::Usage(m),
{
    let all = chars_of(agent);
    let n = all.len();
    proof {
        reveal_strlit("udp:");
    }
    let from: usize = if n >= 4 && crate::lex::range_eq_str(all.as_slice(), 0, 4, "udp:") {
        4
    } else {
        0
    };
    let ghost s = strip_udp(agent@);
    assert(s =~= agent@.subrange(from as int, n as int));
    let mut colons: usize = 0;
    let mut last: Option<usize> = None;
    let mut i: usize = from;
    while i < n
        invariant
            all@ == agent@,
            n == all@.len(),
            from <= i <= n,
            s == agent@.subrange(from as int, n as int),
            colons == count_char(s.take(i - from), ':'),
            colons <= i - from,
            last matches Some(k) ==> from <= k < i && last_index(s.take(i - from), ':') == Some(
                k - from,
            ),
            last is None ==> last_index(s.take(i - from), ':') is None,
        decreases n - i,
    {
        proof {
            lemma_count_last(s, ':', i - from);
            assert(s[i - from] == all@[i as int]);
        }
        if all[i] == ':' {
            colons = colons + 1;
            last = Some(i);
        }
        i = i + 1;
    }
    assert(s.take(n - from) =~= s);
    if (from < n && all[from] == '[') || colons >= 2 {
        return Err(Error::Usage(concat3(
            "AGENT '",
            agent,
            "' looks like IPv6; only IPv4 destinations are supported",
        )));
    }
    match last {
        Some(k) => {
            if k > from {
                match parse_unsigned_range(all.as_slice(), k + 1, n, 65535) {
                    Ok(p) => {
                        assert(s.skip(k - from + 1) =~= all@.subrange(k + 1, n as int));
                        let host = agent.substring_char(from, k);
                        assert(host@ =~= s.take(k - from));
                        Ok((text(host), p as u16))
                    },
                    Err(_) => {
                        assert(s.skip(k - from + 1) =~= all@.subrange(k + 1, n as int));
                        let mut m = text("invalid port in AGENT: ");
                        m.append(agent);
                        Err(Error::Usage(m))
                    },
                }
            } else {
                let host = agent.substring_char(from, n);
                Ok((text(host), DEFAULT_TRAP_PORT))
            }
        },
        None => {
            let host = agent.substring_char(from, n);
            Ok((text(host), DEFAULT_TRAP_PORT))
        },
    }
}

} // verus!
