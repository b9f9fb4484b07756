//! From the command line to the bytes of one trap message: the positional
//! grammar of each SNMP version, the var-bind triplets, the v1 agent
//! address, and the SNMPv3 engine-IDs and keys.
//!
//! What the host provides (its uptime, the egress address toward the
//! destination, its interfaces and name, the process age) is read outside
//! and handed in as [`HostFacts`]; the random request-id, msgID and salt
//! are drawn here, or handed in as [`Nonces`].

use vstd::prelude::*;
use vstd::string::*;
use vstd::utf8::encode_utf8;
use crate::ber::oid_encodable;
use crate::cli::{Cli, SecurityLevel, SnmpVersion};
use crate::engine::{
    is_resolved_engine_id, opt_view, resolve, spec_parse_engine_id, EngineId, EngineIdParseError,
};
use crate::error::{Error, ErrorSpec};
use crate::lex::{parse_signed, parse_unsigned, IntErrorKind};
use crate::net::{parse_ipv4, spec_parse_ipv4, Ipv4Addr};
use crate::pdu::{
    bindings_oids, bindings_view, build_v1_trap, build_v2c_trap,
    default_v1_enterprise_oid, default_v1_enterprise_spec, first_bad_oid, fresh_request_id,
    first_v1_unrepresentable, lemma_first_bad_oid_append, lemma_first_bad_none, snmp_trap_oid_spec,
    sys_uptime_oid_spec, v1_message, v2c_message, BindingSpec, V1Trap, V1TrapSpec, V2cTrap,
    V2cTrapSpec,
};
use crate::text::{dec, dec_int, push_char, push_dec, push_dec_i64, text};
use crate::usm::{
    key_too_short_message, localized_key, password_to_key, priv_key_from_password,
    short_password_message, AuthProtocol, PrivProtocol, MIN_USM_PASSWORD_LEN,
};
use crate::v3::{build_v3_trap_message, v3_message, V3MessageSpec, V3Security, V3SecuritySpec, V3TrapMessage};
use crate::varbind::{
    parse_oid, parse_typed_value, spec_parse_oid, spec_parse_typed_value, ParseError,
    ParseErrorSpec, VarBindValue,
};

verus! {

/// What the host provides to build a payload.
pub struct HostFacts {
    /// Host uptime in hundredths of a second, or why it could not be read.
    pub uptime_centiseconds: Result<u32, String>,
    /// The IPv4 source the kernel would pick toward the destination, or why
    /// it could not be found.
    pub egress_ipv4: Result<Ipv4Addr, String>,
    /// `(name, contents of its address file)` for each network interface.
    pub interfaces: Vec<(String, Option<String>)>,
    /// The host name, when it can be read.
    pub hostname: Option<String>,
    /// Whole seconds since the process started.
    pub elapsed_secs: u64,
}

/// The random values one message uses.
#[derive(Debug, Clone, Copy)]
pub struct Nonces {
    pub request_id: i32,
    pub msg_id: i32,
    pub salt: u64,
}

/// The content of a `Result<Vec<u8>, Error>`.
pub open spec fn outcome(r: Result<Vec<u8>, Error>) -> Result<Seq<u8>, ErrorSpec> {
    match r {
        Ok(b) => Ok(b@),
        Err(e) => Err(e@),
    }
}

pub open spec fn strs(v: Seq<String>) -> Seq<Seq<char>> {
    v.map_values(|s: String| s@)
}

// ---------------------------------------------------------------------
// Uptime
// ---------------------------------------------------------------------

/// An `<UPTIME>` positional: empty means the host's uptime, otherwise an
/// unsigned 32-bit decimal in hundredths of a second.
pub open spec fn spec_uptime(s: Seq<char>, host_uptime: Result<u32, String>) -> Result<u32, ErrorSpec> {
    if s.len() == 0 {
        match host_uptime {
            Ok(u) => Ok(u),
            Err(m) => Err(ErrorSpec::Other(m@)),
        }
    } else {
        match parse_unsigned(s, u32::MAX as nat) {
            Ok(v) => Ok(v as u32),
            Err(k) => Err(ErrorSpec::Usage("invalid uptime '"@ + s + "': "@ + k.spec_description())),
        }
    }
}

pub fn parse_uptime_or_default(s: &str, host_uptime: &Result<u32, String>) -> (r: Result<u32, Error>)
    ensures
        r matches Ok(v) ==> spec_uptime(s@, *host_uptime) == Ok::<u32, ErrorSpec>(v),
        r matches Err(e) ==> spec_uptime(s@, *host_uptime) == Err::<u32, ErrorSpec>(e@),
{
    if s.unicode_len() == 0 {
        return match host_uptime {
            Ok(u) => Ok(*u),
            Err(m) => Err(Error::Other(text(m.as_str()))),
        };
    }
    match crate::lex::parse_u32(s) {
        Ok(v) => Ok(v),
        Err(k) => {
            let mut m = text("invalid uptime '");
            m.append(s);
            m.append("': ");
            m.append(k.description());
            Err(Error::Usage(m))
        },
    }
}

/// Hundredths of a second from a boot time to now, both as `timeval`
/// (seconds, microseconds below one million): zero when now is earlier
/// than the boot time, capped at `u32::MAX`.
pub open spec fn spec_uptime_between(now_sec: i64, now_usec: i64, boot_sec: i64, boot_usec: i64) -> u32 {
    let t = (now_sec - boot_sec) * 1_000_000 + (now_usec - boot_usec);
    if t < 0 {
        0
    } else if t / 10_000 > u32::MAX {
        u32::MAX
    } else {
        (t / 10_000) as u32
    }
}

pub fn uptime_centiseconds_from_timevals(now_sec: i64, now_usec: i64, boot_sec: i64, boot_usec: i64) -> (r: u32)
    requires
        0 <= now_usec < 1_000_000,
        0 <= boot_usec < 1_000_000,
        i64::MIN + 1 <= now_sec - boot_sec <= i64::MAX,
    ensures
        r == spec_uptime_between(now_sec, now_usec, boot_sec, boot_usec),
{
    let mut secs: i64 = now_sec - boot_sec;
    let mut usecs: i64 = now_usec - boot_usec;
    if usecs < 0 {
        secs = secs - 1;
        usecs = usecs + 1_000_000;
    }
    let ghost t = (now_sec - boot_sec) * 1_000_000 + (now_usec - boot_usec);
    assert(t == secs * 1_000_000 + usecs);
    if secs < 0 {
        assert(t < 0) by (nonlinear_arith)
            requires
                t == secs * 1_000_000 + usecs,
                secs < 0,
                0 <= usecs < 1_000_000,
        ;
        return 0;
    }
    assert(t >= 0) by (nonlinear_arith)
        requires
            t == secs * 1_000_000 + usecs,
            secs >= 0,
            0 <= usecs,
    ;
    let su: u64 = secs as u64;
    let prod: u64 = if su > 18446744073709u64 { u64::MAX } else { su * 1_000_000 };
    let total_us: u64 = if u64::MAX - prod < usecs as u64 { u64::MAX } else { prod + usecs as u64 };
    let centi: u64 = total_us / 10_000;
    if centi > 4294967295u64 {
        proof {
            if (secs as u64) * 1_000_000 + (usecs as u64) <= u64::MAX {
                assert(total_us == t);
            } else {
                assert(t > u64::MAX);
                assert(t / 10_000 > u32::MAX) by (nonlinear_arith)
                    requires
                        t > u64::MAX,
                ;
            }
        }
        4294967295u32
    } else {
        proof {
            if (secs as u64) * 1_000_000 > u64::MAX {
                assert(total_us == u64::MAX);
                assert(false);
            }
            if (secs as u64) * 1_000_000 + (usecs as u64) > u64::MAX {
                assert(total_us == u64::MAX);
                assert(false);
            }
            assert(total_us == t);
        }
        centi as u32
    }
}

/// `engineTime`: whole seconds since the process started, capped at
/// `i32::MAX` (the wire field is a signed Integer32).
pub fn process_uptime_seconds(elapsed_secs: u64) -> (r: u32)
    ensures
        r == (if elapsed_secs <= i32::MAX { elapsed_secs } else { i32::MAX as u64 }),
{
    if elapsed_secs <= 2147483647u64 {
        elapsed_secs as u32
    } else {
        2147483647u32
    }
}

// ---------------------------------------------------------------------
// Var-bind triplets
// ---------------------------------------------------------------------

/// One `OID TYPE VALUE` triplet, or the usage message for it.
pub open spec fn triplet_spec(o: Seq<char>, ty: Seq<char>, val: Seq<char>) -> Result<
    BindingSpec,
    Seq<char>,
> {
    match spec_parse_oid(o) {
        Err(m) => Err(m),
        Ok(arcs) => if ty.len() == 0 {
            Err("type letter for OID '"@ + o + "' is empty"@)
        } else if ty.len() > 1 {
            Err("type letter for OID '"@ + o + "' must be a single character, got '"@ + ty + "'"@)
        } else {
            match spec_parse_typed_value(ty[0], val) {
                Ok(v) => Ok((arcs, v)),
                Err(ParseErrorSpec::UnknownLetter(l)) => Err(
                    "unknown type letter '"@ + seq![l] + "' after OID '"@ + o + "'"@,
                ),
                Err(ParseErrorSpec::BadValue(l, d)) => Err(
                    "bad value for type '"@ + seq![l] + "' (OID '"@ + o + "'): "@ + d,
                ),
            }
        },
    }
}

/// The first `k` triplets of `args`, in order; the first failure wins.
pub open spec fn triplets_spec(args: Seq<Seq<char>>, k: nat) -> Result<Seq<BindingSpec>, Seq<char>>
    decreases k,
{
    if k == 0 {
        Ok(Seq::<BindingSpec>::empty())
    } else {
        match triplets_spec(args, (k - 1) as nat) {
            Err(m) => Err(m),
            Ok(bs) => match triplet_spec(args[3 * k - 3], args[3 * k - 2], args[3 * k - 1]) {
                Err(m) => Err(m),
                Ok(b) => Ok(bs.push(b)),
            },
        }
    }
}

/// Trailing var-binds: a whole number of triplets.
pub open spec fn trailing_spec(args: Seq<Seq<char>>) -> Result<Seq<BindingSpec>, Seq<char>> {
    if args.len() % 3 != 0 {
        Err(
            "trailing var-binds must come in OID TYPE VALUE triplets; got "@ + dec(args.len())
                + " extra args"@,
        )
    } else {
        triplets_spec(args, args.len() / 3)
    }
}

fn parse_triplet(o: &str, ty: &str, val: &str) -> (r: Result<(Vec<u32>, VarBindValue), String>)
    ensures
        r matches Ok(b) ==> triplet_spec(o@, ty@, val@) == Ok::<BindingSpec, Seq<char>>(
            (b.0@, b.1@),
        ),
        r matches Err(m) ==> triplet_spec(o@, ty@, val@) == Err::<BindingSpec, Seq<char>>(m@),
{
    let arcs = match parse_oid(o) {
        Ok(a) => a,
        Err(m) => return Err(m),
    };
    let n = ty.unicode_len();
    if n == 0 {
        let mut m = text("type letter for OID '");
        m.append(o);
        m.append("' is empty");
        return Err(m);
    }
    if n > 1 {
        let mut m = text("type letter for OID '");
        m.append(o);
        m.append("' must be a single character, got '");
        m.append(ty);
        m.append("'");
        return Err(m);
    }
    let letter = ty.get_char(0);
    match parse_typed_value(letter, val) {
        Ok(v) => Ok((arcs, v)),
        Err(ParseError::UnknownLetter { letter }) => {
            let mut m = text("unknown type letter '");
            push_char(&mut m, letter);
            m.append("' after OID '");
            m.append(o);
            m.append("'");
            assert(m@ =~= "unknown type letter '"@ + seq![letter] + "' after OID '"@ + o@ + "'"@);
            Err(m)
        },
        Err(ParseError::BadValue { letter, detail }) => {
            let mut m = text("bad value for type '");
            push_char(&mut m, letter);
            m.append("' (OID '");
            m.append(o);
            m.append("'): ");
            m.append(detail.as_str());
            assert(m@ =~= "bad value for type '"@ + seq![letter] + "' (OID '"@ + o@ + "'): "@ + detail@);
            Err(m)
        },
    }
}

/// Parses trailing `OID TYPE VALUE` triplets.
pub fn parse_trailing_varbinds(rest: &[String]) -> (r: Result<Vec<(Vec<u32>, VarBindValue)>, Error>)
    ensures
        r matches Ok(v) ==> trailing_spec(strs(rest@)) == Ok::<Seq<BindingSpec>, Seq<char>>(
            bindings_view(v@),
        ),
        r matches Err(e) ==> trailing_spec(strs(rest@)) matches Err(m) && e@ == ErrorSpec::Usage(m),
{
    let ghost args = strs(rest@);
    if rest.len() % 3 != 0 {
        let mut m = text("trailing var-binds must come in OID TYPE VALUE triplets; got ");
        push_dec(&mut m, rest.len() as u64);
        m.append(" extra args");
        return Err(Error::Usage(m));
    }
    let count = rest.len() / 3;
    let mut out: Vec<(Vec<u32>, VarBindValue)> = Vec::new();
    let mut k: usize = 0;
    assert(bindings_view(out@) =~= Seq::<BindingSpec>::empty());
    while k < count
        invariant
            args == strs(rest@),
            count == rest.len() / 3,
            rest.len() % 3 == 0,
            0 <= k <= count,
            triplets_spec(args, k as nat) == Ok::<Seq<BindingSpec>, Seq<char>>(bindings_view(out@)),
        decreases count - k,
    {
        let o = rest[3 * k].as_str();
        let ty = rest[3 * k + 1].as_str();
        let val = rest[3 * k + 2].as_str();
        assert(args[3 * k as int] == o@);
        assert(args[3 * k + 1] == ty@);
        assert(args[3 * k + 2] == val@);
        match parse_triplet(o, ty, val) {
            Ok(b) => {
                let ghost prev = out@;
                out.push(b);
                assert(bindings_view(out@) =~= bindings_view(prev).push((b.0@, b.1@)));
            },
            Err(m) => {
                proof {
                    lemma_triplets_err(args, (k + 1) as nat, count as nat);
                }
                return Err(Error::Usage(m));
            },
        }
        k = k + 1;
    }
    Ok(out)
}

/// Once a prefix of the triplets fails, all of them fail the same way.
proof fn lemma_triplets_err(args: Seq<Seq<char>>, k: nat, n: nat)
    requires
        k <= n,
        triplets_spec(args, k) is Err,
    ensures
        triplets_spec(args, n) == triplets_spec(args, k),
    decreases n - k,
{
    if k < n {
        lemma_triplets_err(args, k, (n - 1) as nat);
    }
}

/// Every OBJECT IDENTIFIER a parsed triplet list carries is encodable.
proof fn lemma_triplets_encodable(args: Seq<Seq<char>>, k: nat)
    requires
        triplets_spec(args, k) is Ok,
    ensures
        first_bad_oid(bindings_oids(triplets_spec(args, k)->Ok_0)) is None,
    decreases k,
{
    if k > 0 {
        lemma_triplets_encodable(args, (k - 1) as nat);
        let bs = triplets_spec(args, (k - 1) as nat)->Ok_0;
        let b = triplet_spec(args[3 * k - 3], args[3 * k - 2], args[3 * k - 1])->Ok_0;
        let all = bs.push(b);
        assert(all.drop_last() =~= bs);
        assert(all.last() == b);
        lemma_first_bad_none(seq![b.0]);
        crate::pdu::lemma_binding_oids_encodable(b.0, b.1);
        lemma_first_bad_oid_append(bindings_oids(bs), crate::pdu::binding_oids(b));
    }
}

/// The first trailing var-bind that repeats sysUpTime.0 or snmpTrapOID.0,
/// as the usage message for it.
pub open spec fn duplicate_error(bs: Seq<BindingSpec>) -> Option<Seq<char>>
    decreases bs.len(),
{
    if bs.len() == 0 {
        None
    } else {
        match duplicate_error(bs.drop_last()) {
            Some(m) => Some(m),
            None => if bs.last().0 == sys_uptime_oid_spec() {
                Some(sys_uptime_duplicate_message())
            } else if bs.last().0 == snmp_trap_oid_spec() {
                Some(trap_oid_duplicate_message())
            } else {
                None
            },
        }
    }
}

pub open spec fn sys_uptime_duplicate_message() -> Seq<char> {
    "sysUpTime.0 (1.3.6.1.2.1.1.3.0) is auto-prepended; do not pass it as a trailing varbind. Use the <UPTIME> positional (or '' to substitute host uptime)."@
}

pub open spec fn trap_oid_duplicate_message() -> Seq<char> {
    "snmpTrapOID.0 (1.3.6.1.6.3.1.1.4.1.0) is auto-prepended; do not pass it as a trailing varbind. Use the <TRAP-OID> positional."@
}

fn arcs_eq(a: &[u32], b: &[u32]) -> (r: bool)
    ensures
        r == (a@ == b@),
{
    if a.len() != b.len() {
        return false;
    }
    let mut i: usize = 0;
    while i < a.len()
        invariant
            a.len() == b.len(),
            0 <= i <= a.len(),
            forall|j: int| 0 <= j < i ==> a@[j] == b@[j],
        decreases a.len() - i,
    {
        if a[i] != b[i] {
            return false;
        }
        i = i + 1;
    }
    assert(a@ =~= b@);
    true
}

/// Refuses trailing var-binds that repeat the two var-binds a v2 trap
/// carries first.
fn check_duplicates(vbs: &Vec<(Vec<u32>, VarBindValue)>) -> (r: Result<(), Error>)
    ensures
        r is Ok <==> duplicate_error(bindings_view(vbs@)) is None,
        r matches Err(e) ==> duplicate_error(bindings_view(vbs@)) matches Some(m) && e@
            == ErrorSpec::Usage(m),
{
    let ghost bs = bindings_view(vbs@);
    let sys = crate::pdu::sys_uptime_oid();
    let trap = crate::pdu::snmp_trap_oid();
    let mut i: usize = 0;
    assert(bs.take(0) =~= Seq::<BindingSpec>::empty());
    while i < vbs.len()
        invariant
            0 <= i <= vbs.len(),
            bs == bindings_view(vbs@),
            sys@ == sys_uptime_oid_spec(),
            trap@ == snmp_trap_oid_spec(),
            duplicate_error(bs.take(i as int)) is None,
        decreases vbs.len() - i,
    {
        let (name, _) = &vbs[i];
        assert(bs.take(i + 1).drop_last() =~= bs.take(i as int));
        assert(bs.take(i + 1).last().0 == name@);
        if arcs_eq(name.as_slice(), sys.as_slice()) {
            proof {
                lemma_duplicate_prefix(bs, (i + 1) as nat);
            }
            return Err(Error::Usage(text(
                "sysUpTime.0 (1.3.6.1.2.1.1.3.0) is auto-prepended; do not pass it as a trailing varbind. Use the <UPTIME> positional (or '' to substitute host uptime).",
            )));
        }
        if arcs_eq(name.as_slice(), trap.as_slice()) {
            proof {
                lemma_duplicate_prefix(bs, (i + 1) as nat);
            }
            return Err(Error::Usage(text(
                "snmpTrapOID.0 (1.3.6.1.6.3.1.1.4.1.0) is auto-prepended; do not pass it as a trailing varbind. Use the <TRAP-OID> positional.",
            )));
        }
        i = i + 1;
    }
    assert(bs.take(i as int) =~= bs);
    Ok(())
}

proof fn lemma_duplicate_prefix(bs: Seq<BindingSpec>, k: nat)
    requires
        k <= bs.len(),
        duplicate_error(bs.take(k as int)) is Some,
    ensures
        duplicate_error(bs) == duplicate_error(bs.take(k as int)),
    decreases bs.len(),
{
    if k < bs.len() {
        assert(bs.drop_last().take(k as int) =~= bs.take(k as int));
        lemma_duplicate_prefix(bs.drop_last(), k);
    } else {
        assert(bs.take(k as int) =~= bs);
    }
}

// ---------------------------------------------------------------------
// v2c and v3 positionals
// ---------------------------------------------------------------------

/// `<UPTIME> <TRAP-OID> [OID TYPE VALUE]...`: the uptime, trap OID and
/// trailing var-binds, or the error. `which` names the version in the
/// message for too few positionals.
pub open spec fn spec_v2_args(args: Seq<Seq<char>>, host_uptime: Result<u32, String>, which: Seq<char>) -> Result<
    (u32, Seq<u32>, Seq<BindingSpec>),
    ErrorSpec,
> {
    if args.len() < 2 {
        Err(
            ErrorSpec::Usage(
                which + " trap requires at minimum: <UPTIME> <TRAP-OID> [OID TYPE VALUE]..."@,
            ),
        )
    } else {
        match spec_uptime(args[0], host_uptime) {
            Err(e) => Err(e),
            Ok(up) => match spec_parse_oid(args[1]) {
                Err(m) => Err(ErrorSpec::Usage(m)),
                Ok(trap_oid) => match trailing_spec(args.skip(2)) {
                    Err(m) => Err(ErrorSpec::Usage(m)),
                    Ok(bs) => match duplicate_error(bs) {
                        Some(m) => Err(ErrorSpec::Usage(m)),
                        None => Ok((up, trap_oid, bs)),
                    },
                },
            },
        }
    }
}

fn parse_v2_args(args: &Vec<String>, host_uptime: &Result<u32, String>, which: &str) -> (r: Result<
    (u32, Vec<u32>, Vec<(Vec<u32>, VarBindValue)>),
    Error,
>)
    ensures
        r matches Ok((up, oid, vbs)) ==> spec_v2_args(strs(args@), *host_uptime, which@) == Ok::<
            (u32, Seq<u32>, Seq<BindingSpec>),
            ErrorSpec,
        >((up, oid@, bindings_view(vbs@))),
        r matches Err(e) ==> spec_v2_args(strs(args@), *host_uptime, which@) == Err::<
            (u32, Seq<u32>, Seq<BindingSpec>),
            ErrorSpec,
        >(e@),
        r matches Ok((up, oid, vbs)) ==> oid_encodable(oid@) && first_bad_oid(
            bindings_oids(bindings_view(vbs@)),
        ) is None,
{
    let ghost a = strs(args@);
    if args.len() < 2 {
        let mut m = text(which);
        m.append(" trap requires at minimum: <UPTIME> <TRAP-OID> [OID TYPE VALUE]...");
        return Err(Error::Usage(m));
    }
    assert(a[0] == args@[0]@);
    assert(a[1] == args@[1]@);
    let uptime = parse_uptime_or_default(args[0].as_str(), host_uptime)?;
    let trap_oid = match parse_oid(args[1].as_str()) {
        Ok(v) => v,
        Err(m) => return Err(Error::Usage(m)),
    };
    let rest = vstd::slice::slice_subrange(args.as_slice(), 2, args.len());
    assert(strs(rest@) =~= a.skip(2));
    let varbinds = parse_trailing_varbinds(rest)?;
    proof {
        lemma_triplets_encodable(a.skip(2), (a.skip(2).len() / 3) as nat);
    }
    check_duplicates(&varbinds)?;
    Ok((uptime, trap_oid, varbinds))
}

// ---------------------------------------------------------------------
// v2c
// ---------------------------------------------------------------------

/// The v2c payload: the positionals parsed, then the trap message with the
/// community's UTF-8 bytes.
pub open spec fn spec_v2c_payload(cli: Cli, host_uptime: Result<u32, String>, request_id: i32) -> Result<
    Seq<u8>,
    ErrorSpec,
> {
    match spec_v2_args(strs(cli.trap_args@), host_uptime, "v2c"@) {
        Err(e) => Err(e),
        Ok((up, trap_oid, bs)) => Ok(
            v2c_message(
                V2cTrapSpec {
                    community: encode_utf8(cli.community@),
                    request_id,
                    uptime_centiseconds: up,
                    trap_oid,
                    varbinds: bs,
                },
            ),
        ),
    }
}

/// A trap whose OBJECT IDENTIFIERs all came from the OID parser encodes.
proof fn lemma_v2_trap_encodable(t: V2cTrapSpec)
    requires
        oid_encodable(t.trap_oid),
        first_bad_oid(bindings_oids(t.varbinds)) is None,
    ensures
        first_bad_oid(crate::pdu::v2c_oids(t)) is None,
{
    crate::pdu::lemma_v2_prelude(t.uptime_centiseconds as nat, t.trap_oid, t.varbinds);
    crate::pdu::lemma_first_bad_prelude(t.trap_oid, bindings_oids(t.varbinds));
}

pub fn build_v2c_payload(cli: &Cli, host_uptime: &Result<u32, String>, request_id: i32) -> (r:
    Result<Vec<u8>, Error>)
    ensures
        outcome(r) == spec_v2c_payload(*cli, *host_uptime, request_id),
{
    let (uptime, trap_oid, varbinds) = match parse_v2_args(&cli.trap_args, host_uptime, "v2c") {
        Ok(x) => x,
        Err(e) => return Err(e),
    };
    let trap = V2cTrap {
        community: cli.community.as_str().as_bytes_vec(),
        request_id,
        uptime_centiseconds: uptime,
        trap_oid,
        varbinds,
    };
    proof {
        lemma_v2_trap_encodable(trap@);
    }
    build_v2c_trap(&trap)
}

// ---------------------------------------------------------------------
// v1
// ---------------------------------------------------------------------

/// The v1 agent-addr: the positional when given (a dotted quad), else
/// `--src-addr`, else the egress address toward the destination.
pub open spec fn spec_v1_agent_addr(
    positional: Seq<char>,
    src_addr: Option<Ipv4Addr>,
    egress: Result<Ipv4Addr, String>,
) -> Result<Ipv4Addr, ErrorSpec> {
    if positional.len() > 0 {
        match spec_parse_ipv4(positional) {
            Some(a) => Ok(a),
            None => Err(
                ErrorSpec::Usage(
                    "v1 agent-addr positional must be a dotted-quad IPv4 (or empty), got '"@
                        + positional + "'"@,
                ),
            ),
        }
    } else {
        match src_addr {
            Some(a) => Ok(a),
            None => match egress {
                Ok(a) => Ok(a),
                Err(m) => Err(ErrorSpec::Other(m@)),
            },
        }
    }
}

pub fn resolve_v1_agent_addr(
    positional: &str,
    src_addr_flag: Option<Ipv4Addr>,
    egress: &Result<Ipv4Addr, String>,
) -> (r: Result<Ipv4Addr, Error>)
    ensures
        r matches Ok(a) ==> spec_v1_agent_addr(positional@, src_addr_flag, *egress) == Ok::<
            Ipv4Addr,
            ErrorSpec,
        >(a),
        r matches Err(e) ==> spec_v1_agent_addr(positional@, src_addr_flag, *egress) == Err::<
            Ipv4Addr,
            ErrorSpec,
        >(e@),
{
    if positional.unicode_len() > 0 {
        return match parse_ipv4(positional) {
            Some(a) => Ok(a),
            None => {
                let mut m = text(
                    "v1 agent-addr positional must be a dotted-quad IPv4 (or empty), got '",
                );
                m.append(positional);
                m.append("'");
                Err(Error::Usage(m))
            },
        };
    }
    match src_addr_flag {
        Some(a) => Ok(a),
        None => match egress {
            Ok(a) => Ok(*a),
            Err(m) => Err(Error::Other(text(m.as_str()))),
        },
    }
}

/// `<ENTERPRISE-OID>`: empty means Net-SNMP's default `1.3.6.1.4.1.3.1.1`.
pub open spec fn spec_v1_enterprise(s: Seq<char>) -> Result<Seq<u32>, ErrorSpec> {
    if s.len() == 0 {
        Ok(default_v1_enterprise_spec())
    } else {
        match spec_parse_oid(s) {
            Ok(a) => Ok(a),
            Err(m) => Err(ErrorSpec::Usage(m)),
        }
    }
}

/// `<GENERIC>`: a 32-bit decimal in `0..=6`.
pub open spec fn spec_generic(s: Seq<char>) -> Result<i32, ErrorSpec> {
    match parse_signed(s, i32::MAX as nat, 0x8000_0000) {
        Err(k) => Err(ErrorSpec::Usage("invalid generic-trap '"@ + s + "': "@ + k.spec_description())),
        Ok(g) => if 0 <= g <= 6 {
            Ok(g as i32)
        } else {
            Err(ErrorSpec::Usage("generic-trap must be 0..=6, got "@ + dec_int(g)))
        },
    }
}

/// `<SPECIFIC>`: a non-negative 32-bit decimal (RFC 1157).
pub open spec fn spec_specific(s: Seq<char>) -> Result<i32, ErrorSpec> {
    match parse_signed(s, i32::MAX as nat, 0x8000_0000) {
        Err(k) => Err(
            ErrorSpec::Usage("invalid specific-trap '"@ + s + "': "@ + k.spec_description()),
        ),
        Ok(g) => if g >= 0 {
            Ok(g as i32)
        } else {
            Err(ErrorSpec::Usage("specific-trap must be non-negative (RFC 1157), got "@ + dec_int(g)))
        },
    }
}

/// The v1 trap fields from the positionals, in the order they are checked.
pub open spec fn spec_v1_fields(
    a: Seq<Seq<char>>,
    src_addr: Option<Ipv4Addr>,
    host_uptime: Result<u32, String>,
    egress: Result<Ipv4Addr, String>,
) -> Result<(Seq<u32>, Ipv4Addr, i32, i32, u32, Seq<BindingSpec>), ErrorSpec> {
    if a.len() < 5 {
        Err(
            ErrorSpec::Usage(
                "v1 trap requires: <ENTERPRISE-OID> <AGENT-ADDR> <GENERIC> <SPECIFIC> <UPTIME> [OID TYPE VALUE]..."@,
            ),
        )
    } else {
        match spec_v1_enterprise(a[0]) {
            Err(e) => Err(e),
            Ok(ent) => match spec_v1_agent_addr(a[1], src_addr, egress) {
                Err(e) => Err(e),
                Ok(addr) => match spec_generic(a[2]) {
                    Err(e) => Err(e),
                    Ok(g) => match spec_specific(a[3]) {
                        Err(e) => Err(e),
                        Ok(sp) => match spec_uptime(a[4], host_uptime) {
                            Err(e) => Err(e),
                            Ok(up) => match trailing_spec(a.skip(5)) {
                                Err(m) => Err(ErrorSpec::Usage(m)),
                                Ok(bs) => Ok((ent, addr, g, sp, up, bs)),
                            },
                        },
                    },
                },
            },
        }
    }
}

/// The v1 payload; Counter64 and BITS var-binds are refused (SNMPv1 has
/// no such types).
pub open spec fn spec_v1_payload(
    cli: Cli,
    host_uptime: Result<u32, String>,
    egress: Result<Ipv4Addr, String>,
) -> Result<Seq<u8>, ErrorSpec> {
    match spec_v1_fields(strs(cli.trap_args@), cli.spec_src_addr(), host_uptime, egress) {
        Err(e) => Err(e),
        Ok((enterprise, agent_addr, generic, specific, up, bs)) => if first_v1_unrepresentable(
            bs,
        ) is Some {
            Err(ErrorSpec::Encode(first_v1_unrepresentable(bs)->Some_0))
        } else {
            Ok(
                v1_message(
                    V1TrapSpec {
                        community: encode_utf8(cli.community@),
                        enterprise,
                        agent_addr,
                        generic,
                        specific,
                        uptime_centiseconds: up,
                        varbinds: bs,
                    },
                ),
            )
        },
    }
}

/// The v1 Trap-PDU takes each field from its own positional: enterprise
/// from the first, agent-addr from the second, generic-trap (0..=6) from
/// the third, specific-trap from the fourth, time-stamp from the fifth,
/// var-binds from the rest, and the community from `-c`.
pub proof fn lemma_v1_fields_from_positionals(
    cli: Cli,
    host_uptime: Result<u32, String>,
    egress: Result<Ipv4Addr, String>,
    b: Seq<u8>,
)
    requires
        spec_v1_payload(cli, host_uptime, egress) == Ok::<Seq<u8>, ErrorSpec>(b),
    ensures
        strs(cli.trap_args@).len() >= 5,
        spec_v1_enterprise(strs(cli.trap_args@)[0]) is Ok,
        spec_v1_agent_addr(strs(cli.trap_args@)[1], cli.spec_src_addr(), egress) is Ok,
        parse_signed(strs(cli.trap_args@)[2], i32::MAX as nat, 0x8000_0000) is Ok,
        0 <= parse_signed(strs(cli.trap_args@)[2], i32::MAX as nat, 0x8000_0000)->Ok_0 <= 6,
        parse_signed(strs(cli.trap_args@)[3], i32::MAX as nat, 0x8000_0000) is Ok,
        0 <= parse_signed(strs(cli.trap_args@)[3], i32::MAX as nat, 0x8000_0000)->Ok_0,
        spec_uptime(strs(cli.trap_args@)[4], host_uptime) is Ok,
        trailing_spec(strs(cli.trap_args@).skip(5)) is Ok,
        b == v1_message(
            V1TrapSpec {
                community: encode_utf8(cli.community@),
                enterprise: spec_v1_enterprise(strs(cli.trap_args@)[0])->Ok_0,
                agent_addr: spec_v1_agent_addr(strs(cli.trap_args@)[1], cli.spec_src_addr(), egress)->Ok_0,
                generic: parse_signed(strs(cli.trap_args@)[2], i32::MAX as nat, 0x8000_0000)->Ok_0 as i32,
                specific: parse_signed(strs(cli.trap_args@)[3], i32::MAX as nat, 0x8000_0000)->Ok_0 as i32,
                uptime_centiseconds: spec_uptime(strs(cli.trap_args@)[4], host_uptime)->Ok_0,
                varbinds: trailing_spec(strs(cli.trap_args@).skip(5))->Ok_0,
            },
        ),
{
}

fn parse_bounded_i32(s: &str, what: &str) -> (r: Result<i32, Error>)
    ensures
        r matches Ok(v) ==> parse_signed(s@, i32::MAX as nat, 0x8000_0000) == Ok::<int, IntErrorKind>(
            v as int,
        ),
        r matches Err(e) ==> parse_signed(s@, i32::MAX as nat, 0x8000_0000) matches Err(k) && e@
            == ErrorSpec::Usage("invalid "@ + what@ + " '"@ + s@ + "': "@ + k.spec_description()),
{
    match crate::lex::parse_i32(s) {
        Ok(v) => Ok(v),
        Err(k) => {
            let mut m = text("invalid ");
            m.append(what);
            m.append(" '");
            m.append(s);
            m.append("': ");
            m.append(k.description());
            Err(Error::Usage(m))
        },
    }
}

fn parse_v1_fields(cli: &Cli, host_uptime: &Result<u32, String>, egress: &Result<Ipv4Addr, String>) -> (r:
    Result<(Vec<u32>, Ipv4Addr, i32, i32, u32, Vec<(Vec<u32>, VarBindValue)>), Error>)
    ensures
        r matches Ok((ent, addr, g, sp, up, vbs)) ==> spec_v1_fields(
            strs(cli.trap_args@),
            cli.spec_src_addr(),
            *host_uptime,
            *egress,
        ) == Ok::<(Seq<u32>, Ipv4Addr, i32, i32, u32, Seq<BindingSpec>), ErrorSpec>(
            (ent@, addr, g, sp, up, bindings_view(vbs@)),
        ),
        r matches Err(e) ==> spec_v1_fields(
            strs(cli.trap_args@),
            cli.spec_src_addr(),
            *host_uptime,
            *egress,
        ) == Err::<(Seq<u32>, Ipv4Addr, i32, i32, u32, Seq<BindingSpec>), ErrorSpec>(e@),
        r matches Ok((ent, addr, g, sp, up, vbs)) ==> oid_encodable(ent@) && first_bad_oid(
            bindings_oids(bindings_view(vbs@)),
        ) is None,
{
    let args = &cli.trap_args;
    let ghost a = strs(args@);
    if args.len() < 5 {
        return Err(Error::Usage(text(
            "v1 trap requires: <ENTERPRISE-OID> <AGENT-ADDR> <GENERIC> <SPECIFIC> <UPTIME> [OID TYPE VALUE]...",
        )));
    }
    assert(a[0] == args@[0]@ && a[1] == args@[1]@ && a[2] == args@[2]@);
    assert(a[3] == args@[3]@ && a[4] == args@[4]@);
    let enterprise = if args[0].as_str().unicode_len() == 0 {
        default_v1_enterprise_oid()
    } else {
        match parse_oid(args[0].as_str()) {
            Ok(v) => v,
            Err(m) => return Err(Error::Usage(m)),
        }
    };
    let src = cli.src_addr_v4();
    let agent_addr = match resolve_v1_agent_addr(args[1].as_str(), src, egress) {
        Ok(x) => x,
        Err(e) => return Err(e),
    };
    let generic = match parse_bounded_i32(args[2].as_str(), "generic-trap") {
        Ok(x) => x,
        Err(e) => {
            proof {
                reveal_strlit("invalid ");
                reveal_strlit("generic-trap");
                reveal_strlit(" '");
                reveal_strlit("invalid generic-trap '");
                assert("invalid "@ + "generic-trap"@ + " '"@ =~= "invalid generic-trap '"@);
            }
            return Err(e);
        },
    };
    if generic < 0 || generic > 6 {
        let mut m = text("generic-trap must be 0..=6, got ");
        push_dec_i64(&mut m, generic as i64);
        return Err(Error::Usage(m));
    }
    let specific = match parse_bounded_i32(args[3].as_str(), "specific-trap") {
        Ok(x) => x,
        Err(e) => {
            proof {
                reveal_strlit("invalid ");
                reveal_strlit("specific-trap");
                reveal_strlit(" '");
                reveal_strlit("invalid specific-trap '");
                assert("invalid "@ + "specific-trap"@ + " '"@ =~= "invalid specific-trap '"@);
            }
            return Err(e);
        },
    };
    if specific < 0 {
        let mut m = text("specific-trap must be non-negative (RFC 1157), got ");
        push_dec_i64(&mut m, specific as i64);
        return Err(Error::Usage(m));
    }
    let uptime = match parse_uptime_or_default(args[4].as_str(), host_uptime) {
        Ok(x) => x,
        Err(e) => return Err(e),
    };
    let rest = vstd::slice::slice_subrange(args.as_slice(), 5, args.len());
    assert(strs(rest@) =~= a.skip(5));
    let varbinds = match parse_trailing_varbinds(rest) {
        Ok(x) => x,
        Err(e) => return Err(e),
    };
    proof {
        lemma_triplets_encodable(a.skip(5), (a.skip(5).len() / 3) as nat);
    }
    Ok((enterprise, agent_addr, generic, specific, uptime, varbinds))
}

pub fn build_v1_payload(cli: &Cli, host_uptime: &Result<u32, String>, egress: &Result<Ipv4Addr, String>) -> (r:
    Result<Vec<u8>, Error>)
    ensures
        outcome(r) == spec_v1_payload(*cli, *host_uptime, *egress),
{
    let (enterprise, agent_addr, generic, specific, uptime, varbinds) = match parse_v1_fields(
        cli,
        host_uptime,
        egress,
    ) {
        Ok(x) => x,
        Err(e) => return Err(e),
    };
    let trap = V1Trap {
        community: cli.community.as_str().as_bytes_vec(),
        enterprise,
        agent_addr,
        generic,
        specific,
        uptime_centiseconds: uptime,
        varbinds,
    };
    proof {
        let one = seq![trap@.enterprise];
        lemma_first_bad_oid_append(one, bindings_oids(trap@.varbinds));
        assert(one.drop_last() =~= Seq::<Seq<u32>>::empty());
        assert(one.last() == trap@.enterprise);
        assert(first_bad_oid(Seq::<Seq<u32>>::empty()) is None);
    }
    build_v1_trap(&trap)
}

// ---------------------------------------------------------------------
// v3
// ---------------------------------------------------------------------

/// SNMPv3 `engineBoots`: there is no persistent boot counter, so every
/// invocation reports 1.
pub const ENGINE_BOOTS_PER_INVOCATION: u32 = 1;

/// The security level, `noAuthNoPriv` when `-l` is absent.
pub open spec fn level_of(cli: Cli) -> SecurityLevel {
    match cli.security_level {
        Some(l) => l,
        None => SecurityLevel::NoAuthNoPriv,
    }
}

pub open spec fn pw_bytes(pw: Option<String>) -> Seq<u8> {
    match pw {
        Some(p) => encode_utf8(p@),
        None => Seq::<u8>::empty(),
    }
}

/// The `-E` engine-ID the user typed, parsed.
pub open spec fn spec_user_engine(cli: Cli) -> Result<Option<Seq<u8>>, ErrorSpec> {
    match cli.authoritative_engine_id {
        None => Ok(None),
        Some(s) => match spec_parse_engine_id(s@) {
            Ok(b) => Ok(Some(b)),
            Err(e) => Err(
                ErrorSpec::Usage("--authoritative-engine-id (-E): "@ + e.spec_text()),
            ),
        },
    }
}

/// What a v3 payload settles before the authoritative engine-ID is
/// resolved: the positionals and the `-E` value.
pub open spec fn spec_v3_prefix(cli: Cli, host_uptime: Result<u32, String>) -> Result<
    (u32, Seq<u32>, Seq<BindingSpec>, Option<Seq<u8>>),
    ErrorSpec,
> {
    match spec_v2_args(strs(cli.trap_args@), host_uptime, "v3"@) {
        Err(e) => Err(e),
        Ok((up, trap_oid, bs)) => match spec_user_engine(cli) {
            Err(e) => Err(e),
            Ok(u) => Ok((up, trap_oid, bs, u)),
        },
    }
}

/// The context engine-ID: `-e` when given, else the authoritative one.
pub open spec fn spec_v3_context(cli: Cli, authoritative: Seq<u8>) -> Result<Seq<u8>, ErrorSpec> {
    match cli.context_engine_id {
        None => Ok(authoritative),
        Some(s) => match spec_parse_engine_id(s@) {
            Ok(b) => Ok(b),
            Err(e) => Err(ErrorSpec::Usage("--context-engine-id (-e): "@ + e.spec_text())),
        },
    }
}

pub open spec fn missing_auth_protocol_message() -> Seq<char> {
    "internal: -a auth protocol expected after validation"@
}

pub open spec fn missing_priv_protocol_message() -> Seq<char> {
    "internal: -x priv protocol expected after validation"@
}

/// The localized authentication key from `-A`.
pub open spec fn spec_auth_key(cli: Cli, engine_id: Seq<u8>, proto: AuthProtocol) -> Result<
    Seq<u8>,
    ErrorSpec,
> {
    let pw = pw_bytes(cli.auth_password);
    if pw.len() < MIN_USM_PASSWORD_LEN {
        Err(ErrorSpec::Usage(short_password_message(pw.len())))
    } else {
        Ok(localized_key(pw, engine_id, proto))
    }
}

/// The USM security of the level: protocols from `-a`/`-x`, keys
/// localized from `-A`/`-X` to `engine_id`.
pub open spec fn spec_v3_security(cli: Cli, level: SecurityLevel, engine_id: Seq<u8>, salt: u64) -> Result<
    V3SecuritySpec,
    ErrorSpec,
> {
    match level {
        SecurityLevel::NoAuthNoPriv => Ok(V3SecuritySpec::NoAuthNoPriv),
        SecurityLevel::AuthNoPriv => match cli.auth_protocol {
            None => Err(ErrorSpec::Usage(missing_auth_protocol_message())),
            Some(p) => match spec_auth_key(cli, engine_id, p) {
                Err(e) => Err(e),
                Ok(k) => Ok(V3SecuritySpec::AuthNoPriv { proto: p, auth_key: k }),
            },
        },
        SecurityLevel::AuthPriv => match cli.auth_protocol {
            None => Err(ErrorSpec::Usage(missing_auth_protocol_message())),
            Some(p) => match spec_auth_key(cli, engine_id, p) {
                Err(e) => Err(e),
                Ok(k) => match cli.priv_protocol {
                    None => Err(ErrorSpec::Usage(missing_priv_protocol_message())),
                    Some(x) => {
                        let pb = pw_bytes(cli.priv_password);
                        if pb.len() < MIN_USM_PASSWORD_LEN {
                            Err(ErrorSpec::Usage(short_password_message(pb.len())))
                        } else if p.spec_digest_len() < x.spec_key_len() {
                            Err(ErrorSpec::Usage(key_too_short_message(p, x)))
                        } else {
                            Ok(
                                V3SecuritySpec::AuthPriv {
                                    auth_proto: p,
                                    auth_key: k,
                                    priv_proto: x,
                                    priv_key: localized_key(pb, engine_id, p).take(
                                        x.spec_key_len() as int,
                                    ),
                                    salt,
                                },
                            )
                        }
                    },
                },
            },
        },
    }
}

/// The rest of a v3 payload once the authoritative engine-ID is known.
pub open spec fn spec_v3_rest(
    cli: Cli,
    up: u32,
    trap_oid: Seq<u32>,
    bs: Seq<BindingSpec>,
    engine_id: Seq<u8>,
    nonces: Nonces,
    elapsed_secs: u64,
) -> Result<Seq<u8>, ErrorSpec> {
    match spec_v3_context(cli, engine_id) {
        Err(e) => Err(e),
        Ok(ctx) => match spec_v3_security(cli, level_of(cli), engine_id, nonces.salt) {
            Err(e) => Err(e),
            Ok(sec) => Ok(
                v3_message(
                    V3MessageSpec {
                        authoritative_engine_id: engine_id,
                        context_engine_id: ctx,
                        context_name: pw_bytes(cli.context_name),
                        user_name: pw_bytes(cli.user_name),
                        engine_boots: ENGINE_BOOTS_PER_INVOCATION,
                        engine_time: if elapsed_secs <= i32::MAX {
                            elapsed_secs as u32
                        } else {
                            i32::MAX as u32
                        },
                        msg_id: nonces.msg_id,
                        security: sec,
                        trap: V2cTrapSpec {
                            community: Seq::<u8>::empty(),
                            request_id: nonces.request_id,
                            uptime_centiseconds: up,
                            trap_oid,
                            varbinds: bs,
                        },
                    },
                ),
            ),
        },
    }
}

/// The options a v3 payload reads without checking: passwords for the
/// protocols in use, and the user name, unless the payload fails first.
pub open spec fn v3_ready(cli: Cli, host_uptime: Result<u32, String>) -> bool {
    let level = level_of(cli);
    &&& (level != SecurityLevel::NoAuthNoPriv && cli.auth_protocol is Some ==> cli.auth_password is Some)
    &&& (level == SecurityLevel::AuthPriv && cli.auth_protocol is Some && pw_bytes(cli.auth_password).len()
        >= MIN_USM_PASSWORD_LEN && cli.priv_protocol is Some ==> cli.priv_password is Some)
    &&& (cli.user_name is None ==> spec_v3_prefix(cli, host_uptime) is Err || spec_v3_context(
        cli,
        Seq::<u8>::empty(),
    ) is Err || spec_v3_security(cli, level, Seq::<u8>::empty(), 0) is Err)
}

/// What a v3 payload is: settled before the engine-ID, then for an
/// engine-ID the cascade may give.
pub open spec fn v3_payload_outcome(
    cli: Cli,
    host: HostFacts,
    nonces: Nonces,
    out: Result<Seq<u8>, ErrorSpec>,
) -> bool {
    match spec_v3_prefix(cli, host.uptime_centiseconds) {
        Err(e) => out == Err::<Seq<u8>, ErrorSpec>(e),
        Ok((up, trap_oid, bs, user)) => exists|eid: Seq<u8>|
            is_resolved_engine_id(
                user,
                cli.spec_src_addr(),
                host.interfaces@,
                opt_view(host.hostname),
                eid,
            ) && out == spec_v3_rest(cli, up, trap_oid, bs, eid, nonces, host.elapsed_secs),
    }
}

pub fn auth_proto(cli: &Cli) -> (r: Result<AuthProtocol, Error>)
    ensures
        r matches Ok(p) ==> cli.auth_protocol == Some(p),
        r matches Err(e) ==> cli.auth_protocol is None && e@ == ErrorSpec::Usage(
            missing_auth_protocol_message(),
        ),
{
    match cli.auth_protocol {
        Some(p) => Ok(p),
        None => Err(Error::Usage(text("internal: -a auth protocol expected after validation"))),
    }
}

pub fn priv_proto(cli: &Cli) -> (r: Result<PrivProtocol, Error>)
    ensures
        r matches Ok(p) ==> cli.priv_protocol == Some(p),
        r matches Err(e) ==> cli.priv_protocol is None && e@ == ErrorSpec::Usage(
            missing_priv_protocol_message(),
        ),
{
    match cli.priv_protocol {
        Some(p) => Ok(p),
        None => Err(Error::Usage(text("internal: -x priv protocol expected after validation"))),
    }
}

/// The authentication key localized from `-A`.
pub fn derive_auth_key(cli: &Cli, engine_id: &EngineId, proto: AuthProtocol) -> (r: Result<
    Vec<u8>,
    Error,
>)
    requires
        cli.auth_password is Some,
    ensures
        r matches Ok(k) ==> spec_auth_key(*cli, engine_id@, proto) == Ok::<Seq<u8>, ErrorSpec>(k@)
            && k@.len() == proto.spec_digest_len(),
        r matches Err(e) ==> spec_auth_key(*cli, engine_id@, proto) == Err::<Seq<u8>, ErrorSpec>(e@),
{
    match &cli.auth_password {
        Some(pw) => password_to_key(pw.as_str(), engine_id, proto),
        None => Err(Error::Usage(text("internal: -A auth password expected after validation"))),
    }
}

/// The USM security parameters for `level`, keys localized to `engine_id`.
pub fn build_v3_security(cli: &Cli, level: SecurityLevel, engine_id: &EngineId, salt: u64) -> (r:
    Result<V3Security, Error>)
    requires
        level != SecurityLevel::NoAuthNoPriv && cli.auth_protocol is Some ==> cli.auth_password is Some,
        level == SecurityLevel::AuthPriv && cli.auth_protocol is Some && pw_bytes(cli.auth_password).len()
            >= MIN_USM_PASSWORD_LEN && cli.priv_protocol is Some ==> cli.priv_password is Some,
    ensures
        r matches Ok(s) ==> spec_v3_security(*cli, level, engine_id@, salt) == Ok::<
            V3SecuritySpec,
            ErrorSpec,
        >(s@) && s@.keys_fit(),
        r matches Err(e) ==> spec_v3_security(*cli, level, engine_id@, salt) == Err::<
            V3SecuritySpec,
            ErrorSpec,
        >(e@),
{
    match level {
        SecurityLevel::NoAuthNoPriv => Ok(V3Security::NoAuthNoPriv),
        SecurityLevel::AuthNoPriv => {
            let proto = match auth_proto(cli) {
                Ok(p) => p,
                Err(e) => return Err(e),
            };
            let auth_key = match derive_auth_key(cli, engine_id, proto) {
                Ok(k) => k,
                Err(e) => return Err(e),
            };
            Ok(V3Security::AuthNoPriv { proto, auth_key })
        },
        SecurityLevel::AuthPriv => {
            let ap = match auth_proto(cli) {
                Ok(p) => p,
                Err(e) => return Err(e),
            };
            let auth_key = match derive_auth_key(cli, engine_id, ap) {
                Ok(k) => k,
                Err(e) => return Err(e),
            };
            let pp = match priv_proto(cli) {
                Ok(p) => p,
                Err(e) => return Err(e),
            };
            let priv_key = match &cli.priv_password {
                Some(pw) => match priv_key_from_password(pw.as_str(), engine_id, ap, pp) {
                    Ok(k) => k,
                    Err(e) => return Err(e),
                },
                None => return Err(Error::Usage(text("internal: -X priv password expected after validation"))),
            };
            Ok(V3Security::AuthPriv { auth_proto: ap, auth_key, priv_proto: pp, priv_key, salt })
        },
    }
}

/// The USM keys come from their own passwords (RFC 3414 §11.2, RFC 3826
/// §3.1.2.1): the authentication key is the `-A` password localized to
/// the engine with the `-a` hash; the privacy key is the `-X` password
/// localized the same way, cut to the `-x` AES key length; the salt is
/// the one given.
pub proof fn lemma_v3_keys_from_passwords(
    cli: Cli,
    level: SecurityLevel,
    engine_id: Seq<u8>,
    salt: u64,
    sec: V3SecuritySpec,
)
    requires
        level != SecurityLevel::NoAuthNoPriv,
        spec_v3_security(cli, level, engine_id, salt) == Ok::<V3SecuritySpec, ErrorSpec>(sec),
    ensures
        cli.auth_protocol is Some,
        level == SecurityLevel::AuthNoPriv ==> sec == (V3SecuritySpec::AuthNoPriv {
            proto: cli.auth_protocol->Some_0,
            auth_key: localized_key(pw_bytes(cli.auth_password), engine_id, cli.auth_protocol->Some_0),
        }),
        level == SecurityLevel::AuthPriv ==> cli.priv_protocol is Some && sec == (V3SecuritySpec::AuthPriv {
            auth_proto: cli.auth_protocol->Some_0,
            auth_key: localized_key(pw_bytes(cli.auth_password), engine_id, cli.auth_protocol->Some_0),
            priv_proto: cli.priv_protocol->Some_0,
            priv_key: localized_key(pw_bytes(cli.priv_password), engine_id, cli.auth_protocol->Some_0).take(
                (cli.priv_protocol->Some_0).spec_key_len() as int,
            ),
            salt,
        }),
{
}

/// The privacy key does not depend on the `-A` password: two command
/// lines that differ only there give the same privacy key.
pub proof fn lemma_priv_key_ignores_auth_password(
    cli: Cli,
    other_auth_password: Option<String>,
    engine_id: Seq<u8>,
    salt: u64,
    s1: V3SecuritySpec,
    s2: V3SecuritySpec,
)
    requires
        spec_v3_security(cli, SecurityLevel::AuthPriv, engine_id, salt) == Ok::<V3SecuritySpec, ErrorSpec>(s1),
        spec_v3_security(
            Cli { auth_password: other_auth_password, ..cli },
            SecurityLevel::AuthPriv,
            engine_id,
            salt,
        ) == Ok::<V3SecuritySpec, ErrorSpec>(s2),
    ensures
        s1 is AuthPriv && s2 is AuthPriv,
        s1->AuthPriv_priv_key == s2->AuthPriv_priv_key,
{
}

/// Whether a v3 payload fails before it reads the user name does not
/// depend on the engine-ID or salt the keys are localized with.
proof fn lemma_security_err_independent(cli: Cli, level: SecurityLevel, e1: Seq<u8>, e2: Seq<u8>, s1: u64, s2: u64)
    ensures
        spec_v3_security(cli, level, e1, s1) is Err <==> spec_v3_security(cli, level, e2, s2) is Err,
        spec_v3_context(cli, e1) is Err <==> spec_v3_context(cli, e2) is Err,
{
}

fn engine_error(prefix: &str, e: &EngineIdParseError) -> (r: Error)
    ensures
        r@ == ErrorSpec::Usage(prefix@ + e.spec_text()),
{
    let mut m = text(prefix);
    m.append(e.to_string().as_str());
    Error::Usage(m)
}

/// The v3 payload once the authoritative engine-ID is resolved.
fn build_v3_rest(
    cli: &Cli,
    host: &HostFacts,
    nonces: Nonces,
    uptime: u32,
    trap_oid: Vec<u32>,
    varbinds: Vec<(Vec<u32>, VarBindValue)>,
    authoritative: EngineId,
) -> (r: Result<Vec<u8>, Error>)
    requires
        v3_ready(*cli, host.uptime_centiseconds),
        spec_v3_prefix(*cli, host.uptime_centiseconds) is Ok,
        oid_encodable(trap_oid@),
        first_bad_oid(bindings_oids(bindings_view(varbinds@))) is None,
    ensures
        outcome(r) == spec_v3_rest(
            *cli,
            uptime,
            trap_oid@,
            bindings_view(varbinds@),
            authoritative@,
            nonces,
            host.elapsed_secs,
        ),
{
    let ghost eid = authoritative@;
    let context = match &cli.context_engine_id {
        Some(s) => match EngineId::parse_user_input(s.as_str()) {
            Ok(e) => e,
            Err(e) => return Err(engine_error("--context-engine-id (-e): ", &e)),
        },
        None => authoritative.duplicate(),
    };
    let level = match cli.security_level {
        Some(l) => l,
        None => SecurityLevel::NoAuthNoPriv,
    };
    let security = match build_v3_security(cli, level, &authoritative, nonces.salt) {
        Ok(s) => s,
        Err(e) => return Err(e),
    };
    proof {
        lemma_security_err_independent(*cli, level, eid, Seq::<u8>::empty(), nonces.salt, 0);
    }
    let user_name = match &cli.user_name {
        Some(u) => u.as_str().as_bytes_vec(),
        None => {
            proof {
                assert(false);
            }
            Vec::new()
        },
    };
    let context_name = match &cli.context_name {
        Some(n) => n.as_str().as_bytes_vec(),
        None => Vec::new(),
    };
    assert(context_name@ == pw_bytes(cli.context_name));
    assert(user_name@ == pw_bytes(cli.user_name));
    let trap = V2cTrap {
        community: Vec::new(),
        request_id: nonces.request_id,
        uptime_centiseconds: uptime,
        trap_oid,
        varbinds,
    };
    proof {
        lemma_v2_trap_encodable(trap@);
    }
    let msg = V3TrapMessage {
        authoritative_engine_id: authoritative,
        context_engine_id: context,
        context_name,
        user_name,
        engine_boots: ENGINE_BOOTS_PER_INVOCATION,
        engine_time: process_uptime_seconds(host.elapsed_secs),
        msg_id: nonces.msg_id,
        security,
        trap,
    };
    assert(msg@.trap.community =~= Seq::<u8>::empty());
    build_v3_trap_message(&msg)
}

/// Builds the SNMPv3 payload with the given random values.
pub fn build_v3_payload(cli: &Cli, host: &HostFacts, nonces: Nonces) -> (r: Result<Vec<u8>, Error>)
    requires
        v3_ready(*cli, host.uptime_centiseconds),
    ensures
        v3_payload_outcome(*cli, *host, nonces, outcome(r)),
{
    let (uptime, trap_oid, varbinds) = match parse_v2_args(&cli.trap_args, &host.uptime_centiseconds, "v3") {
        Ok(x) => x,
        Err(e) => return Err(e),
    };
    let user_eid: Option<EngineId> = match &cli.authoritative_engine_id {
        Some(s) => match EngineId::parse_user_input(s.as_str()) {
            Ok(e) => Some(e),
            Err(e) => return Err(engine_error("--authoritative-engine-id (-E): ", &e)),
        },
        None => None,
    };
    let ghost user = match &user_eid {
        Some(e) => Some(e@),
        None => None::<Seq<u8>>,
    };
    assert(spec_v3_prefix(*cli, host.uptime_centiseconds) == Ok::<
        (u32, Seq<u32>, Seq<BindingSpec>, Option<Seq<u8>>),
        ErrorSpec,
    >((uptime, trap_oid@, bindings_view(varbinds@), user)));
    let src = cli.src_addr_v4();
    let authoritative = match &user_eid {
        Some(e) => resolve(Some(e), src, &host.interfaces, &host.hostname),
        None => resolve(None, src, &host.interfaces, &host.hostname),
    };
    let ghost eid = authoritative@;
    let ghost oid = trap_oid@;
    let ghost bs = bindings_view(varbinds@);
    let r = build_v3_rest(cli, host, nonces, uptime, trap_oid, varbinds, authoritative);
    assert(is_resolved_engine_id(
        user,
        cli.spec_src_addr(),
        host.interfaces@,
        opt_view(host.hostname),
        eid,
    ) && outcome(r) == spec_v3_rest(*cli, uptime, oid, bs, eid, nonces, host.elapsed_secs));
    r
}

// ---------------------------------------------------------------------
// Any version
// ---------------------------------------------------------------------

/// What the payload of `cli` is, with the given random values.
pub open spec fn payload_outcome(cli: Cli, host: HostFacts, nonces: Nonces, out: Result<Seq<u8>, ErrorSpec>) -> bool {
    match cli.version {
        SnmpVersion::V1 => out == spec_v1_payload(cli, host.uptime_centiseconds, host.egress_ipv4),
        SnmpVersion::V2c => out == spec_v2c_payload(cli, host.uptime_centiseconds, nonces.request_id),
        SnmpVersion::V3 => v3_payload_outcome(cli, host, nonces, out),
    }
}

/// Builds the payload of the version `cli` names, with the given random
/// values.
pub fn build_payload_with(cli: &Cli, host: &HostFacts, nonces: Nonces) -> (r: Result<Vec<u8>, Error>)
    requires
        cli.version == SnmpVersion::V3 ==> v3_ready(*cli, host.uptime_centiseconds),
    ensures
        payload_outcome(*cli, *host, nonces, outcome(r)),
{
    match cli.version {
        SnmpVersion::V1 => build_v1_payload(cli, &host.uptime_centiseconds, &host.egress_ipv4),
        SnmpVersion::V2c => build_v2c_payload(cli, &host.uptime_centiseconds, nonces.request_id),
        SnmpVersion::V3 => build_v3_payload(cli, host, nonces),
    }
}

/// Builds the payload of the version `cli` names, drawing a fresh
/// request-id, msgID and salt.
pub fn build_payload(cli: &Cli, host: &HostFacts) -> (r: Result<Vec<u8>, Error>)
    requires
        cli.version == SnmpVersion::V3 ==> v3_ready(*cli, host.uptime_centiseconds),
    ensures
        exists|n: Nonces| 1 <= n.request_id && 1 <= n.msg_id && payload_outcome(*cli, *host, n, outcome(r)),
{
    let nonces = Nonces {
        request_id: fresh_request_id(),
        msg_id: crate::v3::fresh_msg_id(),
        salt: crate::usm::fresh_salt(),
    };
    build_payload_with(cli, host, nonces)
}

/// A command line that `validate` accepts under `-v 3` gives the v3
/// payload builder every option it reads without checking.
pub proof fn lemma_validated_cli_is_ready(cli: Cli, src_addr_is_ipv6: bool, host_uptime: Result<u32, String>)
    requires
        cli.version == SnmpVersion::V3,
        crate::cli::validation_error(cli, src_addr_is_ipv6) is None,
    ensures
        v3_ready(
            Cli {
                security_level: if cli.security_level is None {
                    Some(SecurityLevel::NoAuthNoPriv)
                } else {
                    cli.security_level
                },
                ..cli
            },
            host_uptime,
        ),
{
}

} // verus!
