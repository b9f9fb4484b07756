//! IPv4 addresses and socket addresses as plain values, with the textual
//! dotted-quad form that the standard library's `Ipv4Addr` parser accepts.

use vstd::prelude::*;
use vstd::string::*;
use crate::lex::{chars_of, digits_value, is_digit, parse_unsigned_range, IntErrorKind};
use crate::split::{split_char, split_ranges, Separator};
use crate::text::{dec, push_dec};

verus! {

/// An IPv4 address, octets in network order.
#[derive(Debug, Clone, Copy, PartialEq, Eq, Structural)]
pub struct Ipv4Addr {
    pub a: u8,
    pub b: u8,
    pub c: u8,
    pub d: u8,
}

/// An IPv4 socket address.
#[derive(Debug, Clone, Copy, PartialEq, Eq, Structural)]
pub struct SocketAddrV4 {
    pub ip: Ipv4Addr,
    pub port: u16,
}

impl Ipv4Addr {
    pub open spec fn spec_octets(self) -> Seq<u8> {
        seq![self.a, self.b, self.c, self.d]
    }

    pub fn new(a: u8, b: u8, c: u8, d: u8) -> (r: Ipv4Addr)
        ensures
            r == (Ipv4Addr { a, b, c, d }),
    {
        Ipv4Addr { a, b, c, d }
    }

    pub fn octets(&self) -> (r: [u8; 4])
        ensures
            r@ == self.spec_octets(),
    {
        let r = [self.a, self.b, self.c, self.d];
        assert(r@ =~= self.spec_octets());
        r
    }

    /// Whether the address is in `127.0.0.0/8`.
    pub fn is_loopback(&self) -> (r: bool)
        ensures
            r == (self.a == 127),
    {
        self.a == 127
    }

    pub fn from_octets(o: [u8; 4]) -> (r: Ipv4Addr)
        ensures
            r.spec_octets() == o@,
    {
        let r = Ipv4Addr { a: o[0], b: o[1], c: o[2], d: o[3] };
        assert(r.spec_octets() =~= o@);
        r
    }
}

impl SocketAddrV4 {
    pub fn new(ip: Ipv4Addr, port: u16) -> (r: SocketAddrV4)
        ensures
            r == (SocketAddrV4 { ip, port }),
    {
        SocketAddrV4 { ip, port }
    }

    pub fn ip(&self) -> (r: Ipv4Addr)
        ensures
            r == self.ip,
    {
        self.ip
    }

    pub fn port(&self) -> (r: u16)
        ensures
            r == self.port,
    {
        self.port
    }
}

/// One dotted-quad field: one to three decimal digits, no leading zero
/// unless the field is `0` itself, value at most 255.
pub open spec fn octet_text(t: Seq<char>) -> Option<u8> {
    if 1 <= t.len() <= 3 && (t.len() == 1 || t[0] != '0') {
        match digits_value(t, 255, IntErrorKind::PosOverflow) {
            Ok(v) => Some(v as u8),
            Err(_) => None,
        }
    } else {
        None
    }
}

/// The address that `s` spells in dotted-quad form, if any.
pub open spec fn spec_parse_ipv4(s: Seq<char>) -> Option<Ipv4Addr> {
    let parts = split_char(s, Separator::Char('.'));
    if parts.len() == 4 && octet_text(parts[0]) is Some && octet_text(parts[1]) is Some
        && octet_text(parts[2]) is Some && octet_text(parts[3]) is Some {
        Some(
            Ipv4Addr {
                a: octet_text(parts[0])->0,
                b: octet_text(parts[1])->0,
                c: octet_text(parts[2])->0,
                d: octet_text(parts[3])->0,
            },
        )
    } else {
        None
    }
}

fn parse_octet(s: &[char], from: usize, to: usize) -> (r: Option<u8>)
    requires
        from <= to <= s.len(),
    ensures
        r == octet_text(s@.subrange(from as int, to as int)),
{
    let ghost t = s@.subrange(from as int, to as int);
    if to - from < 1 || to - from > 3 || (to - from != 1 && s[from] == '0') {
        return None;
    }
    let mut v: u64 = 0;
    match parse_unsigned_range(s, from, to, 255) {
        Ok(x) => {
            if s[from] == '+' {
                // `parse_unsigned` accepts a leading '+'; a dotted quad does not.
                proof {
                    assert(digits_value(t, 255, IntErrorKind::PosOverflow) is Err) by {
                        lemma_first_not_digit(t);
                    }
                }
                return None;
            }
            v = x;
        },
        Err(_) => {
            proof {
                if t[0] == '+' {
                    lemma_first_not_digit(t);
                }
            }
            return None;
        },
    }
    Some(v as u8)
}

/// A text starting with a non-digit has no decimal value.
proof fn lemma_first_not_digit(t: Seq<char>)
    requires
        t.len() >= 1,
        !is_digit(t[0]),
    ensures
        digits_value(t, 255, IntErrorKind::PosOverflow) is Err,
    decreases t.len(),
{
    if t.len() > 1 {
        assert(t.drop_last()[0] == t[0]);
        lemma_first_not_digit(t.drop_last());
    } else {
        assert(t.drop_last() =~= Seq::<char>::empty());
    }
}

/// Parses a dotted-quad IPv4 address as `str::parse::<Ipv4Addr>` does.
pub fn parse_ipv4(s: &str) -> (r: Option<Ipv4Addr>)
    ensures
        r == spec_parse_ipv4(s@),
{
    let cs = chars_of(s);
    assert(cs@.subrange(0, cs@.len() as int) =~= s@);
    let parts = split_ranges(cs.as_slice(), 0, cs.len(), Separator::Char('.'));
    if parts.len() != 4 {
        return None;
    }
    let p0 = parse_octet(cs.as_slice(), parts[0].0, parts[0].1);
    let p1 = parse_octet(cs.as_slice(), parts[1].0, parts[1].1);
    let p2 = parse_octet(cs.as_slice(), parts[2].0, parts[2].1);
    let p3 = parse_octet(cs.as_slice(), parts[3].0, parts[3].1);
    proof {
        assert(parts@[0] == parts@[0]);
        assert(parts@[1] == parts@[1]);
        assert(parts@[2] == parts@[2]);
        assert(parts@[3] == parts@[3]);
    }
    match (p0, p1, p2, p3) {
        (Some(a), Some(b), Some(c), Some(d)) => Some(Ipv4Addr { a, b, c, d }),
        _ => None,
    }
}

/// Dotted-quad rendering of an address.
pub open spec fn ipv4_text(ip: Ipv4Addr) -> Seq<char> {
    dec(ip.a as nat) + "."@ + dec(ip.b as nat) + "."@ + dec(ip.c as nat) + "."@ + dec(ip.d as nat)
}

/// Appends the dotted-quad rendering of `ip`.
pub fn push_ipv4(s: &mut String, ip: Ipv4Addr)
    ensures
        final(s)@ == old(s)@ + ipv4_text(ip),
{
    push_dec(s, ip.a as u64);
    s.append(".");
    push_dec(s, ip.b as u64);
    s.append(".");
    push_dec(s, ip.c as u64);
    s.append(".");
    push_dec(s, ip.d as u64);
    assert(final(s)@ =~= old(s)@ + ipv4_text(ip));
}

/// `ip:port` rendering of a socket address.
pub open spec fn socket_text(sa: SocketAddrV4) -> Seq<char> {
    ipv4_text(sa.ip) + ":"@ + dec(sa.port as nat)
}

pub fn push_socket(s: &mut String, sa: SocketAddrV4)
    ensures
        final(s)@ == old(s)@ + socket_text(sa),
{
    push_ipv4(s, sa.ip);
    s.append(":");
    push_dec(s, sa.port as u64);
    assert(final(s)@ =~= old(s)@ + socket_text(sa));
}

} // verus!
