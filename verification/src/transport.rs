//! What goes on the wire and what a send failure means.
//!
//! With `--src-addr` the message is sent on a raw IPv4 socket with a header
//! built here (IP_HDRINCL), so the source address is the one asked for;
//! otherwise on an ordinary UDP socket. The sockets themselves are opened
//! and used outside; this module builds the headers (RFC 791, RFC 768,
//! RFC 1071 checksums), keeps the retry count, and classifies OS errors.

use vstd::prelude::*;
use vstd::string::*;
use crate::error::{Error, ErrorSpec, Platform};
use crate::lex::str_eq;
use crate::net::{Ipv4Addr, SocketAddrV4};
use crate::text::{dec, push_dec, text};
use crate::usm::{be_bytes, lemma_be_len, push_be};

verus! {

// ---------------------------------------------------------------------
// RFC 1071 checksum
// ---------------------------------------------------------------------

/// The `k`-th 16-bit big-endian word of `data`; an odd last byte is padded
/// with a zero low byte.
pub open spec fn word_at(data: Seq<u8>, k: nat) -> nat {
    if 2 * k + 1 < data.len() {
        data[2 * k as int] as nat * 256 + data[(2 * k + 1) as int] as nat
    } else {
        data[2 * k as int] as nat * 256
    }
}

/// The sum of the first `k` words.
pub open spec fn words_sum(data: Seq<u8>, k: nat) -> nat
    decreases k,
{
    if k == 0 {
        0
    } else {
        words_sum(data, (k - 1) as nat) + word_at(data, (k - 1) as nat)
    }
}

pub open spec fn word_count(data: Seq<u8>) -> nat {
    ((data.len() + 1) / 2) as nat
}

/// End-around carry: the high 16 bits added back into the low 16 until
/// nothing is left above them.
pub open spec fn fold16(s: nat) -> nat
    decreases s,
{
    if s < 65536 {
        s
    } else {
        proof {
            assert(s % 65536 + s / 65536 < s) by (nonlinear_arith)
                requires
                    s >= 65536,
            ;
        }
        fold16(s % 65536 + s / 65536)
    }
}

/// The Internet checksum of `data` as computed with a 32-bit wrapping
/// accumulator: the one's complement of the folded word sum.
pub open spec fn spec_ip_checksum(data: Seq<u8>) -> u16 {
    (65535 - fold16(words_sum(data, word_count(data)) % 4294967296)) as u16
}

pub proof fn lemma_fold16(s: nat)
    ensures
        fold16(s) <= 65535,
        fold16(s) <= s,
        fold16(s) % 65535 == s % 65535,
        s > 0 ==> fold16(s) > 0,
    decreases s,
{
    if s >= 65536 {
        let t = s % 65536 + s / 65536;
        assert(t < s && t % 65535 == s % 65535 && t > 0) by (nonlinear_arith)
            requires
                s >= 65536,
                t == s % 65536 + s / 65536,
        ;
        lemma_fold16(t);
    }
}

/// One's-complement arithmetic: adding the checksum of a sum to the sum
/// gives a sum whose checksum is zero.
pub proof fn lemma_checksum_of_checked_sum(s: nat)
    requires
        s > 0,
    ensures
        fold16((s + (65535 - fold16(s))) as nat) == 65535,
{
    lemma_fold16(s);
    let t = (s + (65535 - fold16(s))) as nat;
    assert(t % 65535 == 0) by (nonlinear_arith)
        requires
            fold16(s) % 65535 == s % 65535,
            t == s + (65535 - fold16(s)),
            fold16(s) <= 65535,
    ;
    lemma_fold16(t);
    assert(fold16(t) == 65535) by (nonlinear_arith)
        requires
            fold16(t) % 65535 == t % 65535,
            t % 65535 == 0,
            fold16(t) <= 65535,
            fold16(t) > 0,
    ;
}

/// The one's-complement Internet checksum (RFC 1071) of `data`.
pub fn ip_checksum(data: &[u8]) -> (r: u16)
    ensures
        r == spec_ip_checksum(data@),
{
    let mut sum: u32 = 0;
    let mut i: usize = 0;
    while i + 1 < data.len()
        invariant
            i % 2 == 0,
            i <= data.len(),
            sum == words_sum(data@, (i / 2) as nat) % 4294967296,
        decreases data.len() - i,
    {
        let word: u32 = (data[i] as u32) * 256 + data[i + 1] as u32;
        proof {
            let k = (i / 2) as nat;
            assert(2 * k == i);
            assert(word == word_at(data@, k));
            assert(words_sum(data@, k + 1) == words_sum(data@, k) + word);
            let w = words_sum(data@, k);
            assert((w % 4294967296 + word as nat) % 4294967296 == (w + word) % 4294967296) by (nonlinear_arith)
                requires
                    word < 65536,
            ;
        }
        sum = sum.wrapping_add(word);
        i = i + 2;
    }
    if i < data.len() {
        let word: u32 = (data[i] as u32) * 256;
        proof {
            let k = (i / 2) as nat;
            assert(2 * k == i);
            assert(word == word_at(data@, k));
            assert(words_sum(data@, k + 1) == words_sum(data@, k) + word);
            let w = words_sum(data@, k);
            assert((w % 4294967296 + word as nat) % 4294967296 == (w + word) % 4294967296) by (nonlinear_arith)
                requires
                    word < 65536,
            ;
            assert(k + 1 == word_count(data@));
        }
        sum = sum.wrapping_add(word);
    } else {
        assert((i / 2) as nat == word_count(data@));
    }
    let ghost s0 = sum as nat;
    while (sum >> 16) != 0
        invariant
            fold16(sum as nat) == fold16(s0),
        decreases sum,
    {
        assert(sum >> 16 == sum / 65536 && sum & 0xFFFF == sum % 65536) by (bit_vector);
        assert(sum >= 65536) by (bit_vector)
            requires
                (sum >> 16) != 0,
        ;
        proof {
            assert(sum % 65536 + sum / 65536 < sum) by (nonlinear_arith)
                requires
                    sum >= 65536,
            ;
        }
        sum = (sum & 0xFFFF) + (sum >> 16);
    }
    assert(sum < 65536) by (bit_vector)
        requires
            (sum >> 16) == 0,
    ;
    let low: u16 = sum as u16;
    assert(!low == 65535 - low) by (bit_vector);
    !low
}

// ---------------------------------------------------------------------
// IPv4 and UDP headers
// ---------------------------------------------------------------------

/// The byte order in which a raw socket takes a 16-bit header field.
#[derive(Debug, Clone, Copy, PartialEq, Eq, Structural)]
pub enum ByteOrder {
    Big,
    Little,
}

/// BSD-derived raw(4) sockets (macOS, FreeBSD, OpenBSD, NetBSD,
/// DragonFly) take `ip_len` and `ip_off` in host byte order.
pub open spec fn host_order_raw(os: Seq<char>) -> bool {
    os == "macos"@ || os == "freebsd"@ || os == "openbsd"@ || os == "netbsd"@ || os == "dragonfly"@
}

/// The order of `ip_len`/`ip_off` for the target operating system (as
/// `std::env::consts::OS` names it): host order on BSD-derived systems,
/// network order elsewhere (Linux raw(7) passes them through).
pub fn kernel_field_order(os: &str, little_endian: bool) -> (r: ByteOrder)
    ensures
        r == (if host_order_raw(os@) && little_endian { ByteOrder::Little } else { ByteOrder::Big }),
{
    let bsd = str_eq(os, "macos") || str_eq(os, "freebsd") || str_eq(os, "openbsd") || str_eq(
        os,
        "netbsd",
    ) || str_eq(os, "dragonfly");
    if bsd && little_endian {
        ByteOrder::Little
    } else {
        ByteOrder::Big
    }
}

pub open spec fn field_bytes(v: u16, order: ByteOrder) -> Seq<u8> {
    match order {
        ByteOrder::Big => be_bytes(v as nat, 2),
        ByteOrder::Little => seq![(v % 256) as u8, (v / 256 % 256) as u8],
    }
}

/// A 16-bit header field in the order the kernel expects.
pub fn iphdr_u16_to_kernel(val: u16, order: ByteOrder) -> (r: [u8; 2])
    ensures
        r@ == field_bytes(val, order),
{
    let hi = (val / 256 % 256) as u8;
    let lo = (val % 256) as u8;
    let r = match order {
        ByteOrder::Big => [hi, lo],
        ByteOrder::Little => [lo, hi],
    };
    proof {
        reveal_with_fuel(be_bytes, 3);
    }
    assert(r@ =~= field_bytes(val, order));
    r
}

/// A 20-byte IPv4 header (version 4, IHL 5, DF, TTL 64, protocol UDP) with
/// `csum` in the checksum field.
pub open spec fn ipv4_header_with(
    src: Ipv4Addr,
    dst: Ipv4Addr,
    total_length: u16,
    identification: u16,
    order: ByteOrder,
    csum: u16,
) -> Seq<u8> {
    ipv4_header_head(total_length, identification, order) + be_bytes(csum as nat, 2)
        + src.spec_octets() + dst.spec_octets()
}

/// The ten bytes before the checksum field.
pub open spec fn ipv4_header_head(total_length: u16, identification: u16, order: ByteOrder) -> Seq<u8> {
    seq![0x45u8, 0u8] + field_bytes(total_length, order) + be_bytes(identification as nat, 2)
        + field_bytes(0x4000, order) + seq![64u8, 17u8]
}

/// The IPv4 header for a UDP datagram of `udp_len` bytes, its checksum
/// computed over the header with a zero checksum field.
pub open spec fn ipv4_header(src: Ipv4Addr, dst: Ipv4Addr, udp_len: u16, identification: u16, order: ByteOrder) -> Seq<u8> {
    let total = (20 + udp_len) as u16;
    ipv4_header_with(
        src,
        dst,
        total,
        identification,
        order,
        spec_ip_checksum(ipv4_header_with(src, dst, total, identification, order, 0)),
    )
}

proof fn lemma_field_len(v: u16, order: ByteOrder)
    ensures
        field_bytes(v, order).len() == 2,
{
    lemma_be_len(v as nat, 2);
}

proof fn lemma_words_bound(d: Seq<u8>, k: nat)
    requires
        2 * k <= d.len() + 1,
    ensures
        words_sum(d, k) <= k * 65535,
        k >= 1 ==> words_sum(d, k) >= word_at(d, 0),
    decreases k,
{
    if k > 0 {
        lemma_words_bound(d, (k - 1) as nat);
        let j = (k - 1) as nat;
        assert(d[2 * j as int] <= 255);
        if 2 * j + 1 < d.len() {
            assert(d[(2 * j + 1) as int] <= 255);
        }
        assert(word_at(d, j) <= 65535) by (nonlinear_arith)
            requires
                2 * j + 1 < d.len() ==> word_at(d, j) == d[2 * j as int] as nat * 256 + d[(2 * j + 1) as int] as nat,
                2 * j + 1 >= d.len() ==> word_at(d, j) == d[2 * j as int] as nat * 256,
                d[2 * j as int] <= 255,
                2 * j + 1 < d.len() ==> d[(2 * j + 1) as int] <= 255,
        ;
    }
}

/// Two headers that differ only in the checksum field: the word sums differ
/// by that field.
proof fn lemma_words_with_csum(head: Seq<u8>, tail: Seq<u8>, c: u16, k: nat)
    requires
        head.len() == 10,
        tail.len() == 8,
        k <= 10,
    ensures
        words_sum(head + be_bytes(c as nat, 2) + tail, k) == words_sum(
            head + be_bytes(0, 2) + tail,
            k,
        ) + if k > 5 { c as nat } else { 0 },
    decreases k,
{
    lemma_be_len(c as nat, 2);
    lemma_be_len(0, 2);
    if k > 0 {
        lemma_words_with_csum(head, tail, c, (k - 1) as nat);
        let a = head + be_bytes(c as nat, 2) + tail;
        let b = head + be_bytes(0, 2) + tail;
        let j = (k - 1) as nat;
        if j == 5 {
            reveal_with_fuel(be_bytes, 3);
            assert(a[10] == (c as nat / 256 % 256) as u8);
            assert(a[11] == (c as nat % 256) as u8);
            assert(b[10] == 0 && b[11] == 0);
            assert(word_at(a, 5) == c) by (nonlinear_arith)
                requires
                    word_at(a, 5) == a[10] as nat * 256 + a[11] as nat,
                    a[10] == (c as nat / 256 % 256) as u8,
                    a[11] == (c as nat % 256) as u8,
                    c < 65536,
            ;
        } else {
            assert(a[2 * j as int] == b[2 * j as int]);
            assert(a[(2 * j + 1) as int] == b[(2 * j + 1) as int]);
        }
    }
}

/// A header carries a checksum under which it verifies: the checksum of
/// the whole header, checksum field included, is zero (RFC 1071).
pub proof fn lemma_ipv4_header_verifies(
    src: Ipv4Addr,
    dst: Ipv4Addr,
    udp_len: u16,
    identification: u16,
    order: ByteOrder,
)
    ensures
        spec_ip_checksum(ipv4_header(src, dst, udp_len, identification, order)) == 0,
        ipv4_header(src, dst, udp_len, identification, order).len() == 20,
{
    let total = (20 + udp_len) as u16;
    let head = ipv4_header_head(total, identification, order);
    let tail = src.spec_octets() + dst.spec_octets();
    lemma_field_len(total, order);
    lemma_field_len(0x4000, order);
    lemma_be_len(identification as nat, 2);
    lemma_be_len(0, 2);
    assert(head.len() == 10);
    let zero = ipv4_header_with(src, dst, total, identification, order, 0);
    assert(zero =~= head + be_bytes(0, 2) + tail);
    let s0 = words_sum(zero, 10);
    assert(word_count(zero) == 10);
    lemma_words_bound(zero, 10);
    assert(word_at(zero, 0) == 0x45 * 256);
    assert(s0 < 4294967296);
    let c = spec_ip_checksum(zero);
    lemma_fold16(s0);
    assert(c == 65535 - fold16(s0));
    let full = ipv4_header_with(src, dst, total, identification, order, c);
    lemma_be_len(c as nat, 2);
    assert(full =~= head + be_bytes(c as nat, 2) + tail);
    lemma_words_with_csum(head, tail, c, 10);
    assert(word_count(full) == 10);
    assert(words_sum(full, 10) == s0 + c);
    lemma_checksum_of_checked_sum(s0);
}

/// `data` with the checksum `c` written big-endian into the two octets at
/// `k`.
pub open spec fn with_checksum_at(data: Seq<u8>, k: nat, c: u16) -> Seq<u8> {
    data.update(k as int, (c / 256) as u8).update((k + 1) as int, (c % 256) as u8)
}

/// Filling a zeroed word slot with `c` adds `c` to every word sum that
/// covers the slot and leaves the others alone.
proof fn lemma_words_with_slot(data: Seq<u8>, k: nat, c: u16, n: nat)
    requires
        k % 2 == 0,
        k + 2 <= data.len(),
        data[k as int] == 0,
        data[(k + 1) as int] == 0,
        2 * n <= data.len() + 1,
    ensures
        words_sum(with_checksum_at(data, k, c), n) == words_sum(data, n) + if n > k / 2 {
            c as nat
        } else {
            0
        },
    decreases n,
{
    if n > 0 {
        let j = (n - 1) as nat;
        let d2 = with_checksum_at(data, k, c);
        lemma_words_with_slot(data, k, c, j);
        if j == k / 2 {
            assert(2 * j == k);
            assert(d2[k as int] == (c / 256) as u8);
            assert(d2[(k + 1) as int] == (c % 256) as u8);
            assert(word_at(d2, j) == c) by (nonlinear_arith)
                requires
                    word_at(d2, j) == d2[k as int] as nat * 256 + d2[(k + 1) as int] as nat,
                    d2[k as int] == (c / 256) as u8,
                    d2[(k + 1) as int] == (c % 256) as u8,
                    c < 65536,
            ;
            assert(word_at(data, j) == 0);
        } else {
            assert(2 * j != k && 2 * j != k + 1 && 2 * j + 1 != k && 2 * j + 1 != k + 1);
            assert(d2[2 * j as int] == data[2 * j as int]);
            if 2 * j + 1 < data.len() {
                assert(d2[(2 * j + 1) as int] == data[(2 * j + 1) as int]);
            }
            assert(word_at(d2, j) == word_at(data, j));
        }
    }
}

/// RFC 1071: writing the checksum of `data` into a zeroed, word-aligned
/// two-octet slot gives data whose checksum is zero, so a receiver that
/// sums the whole of it sees it verify. The data is at most 65535 octets,
/// as an IPv4 packet is.
pub proof fn lemma_checksum_verifies(data: Seq<u8>, k: nat)
    requires
        data.len() <= 65535,
        k % 2 == 0,
        k + 2 <= data.len(),
        data[k as int] == 0,
        data[(k + 1) as int] == 0,
    ensures
        spec_ip_checksum(with_checksum_at(data, k, spec_ip_checksum(data))) == 0,
{
    let n = word_count(data);
    let s0 = words_sum(data, n);
    lemma_words_bound(data, n);
    assert(n <= 32768);
    assert(n * 65535 <= 32768 * 65535) by (nonlinear_arith)
        requires
            n <= 32768,
    ;
    assert(s0 % 4294967296 == s0);
    lemma_fold16(s0);
    let c = spec_ip_checksum(data);
    assert(c == 65535 - fold16(s0));
    let d2 = with_checksum_at(data, k, c);
    assert(d2.len() == data.len());
    assert(word_count(d2) == n);
    lemma_words_with_slot(data, k, c, n);
    assert(n > k / 2);
    assert(words_sum(d2, n) == s0 + c);
    assert((s0 + c) % 4294967296 == s0 + c);
    if s0 > 0 {
        lemma_checksum_of_checked_sum(s0);
    } else {
        assert(fold16(0) == 0);
        assert(fold16(65535) == 65535);
    }
}

/// An odd octet at the end is summed as the high half of a word whose low
/// half is zero, so padding with one zero octet leaves the checksum as it
/// was (RFC 1071, §4.1).
pub proof fn lemma_checksum_pad(data: Seq<u8>)
    requires
        data.len() % 2 == 1,
    ensures
        spec_ip_checksum(data.push(0)) == spec_ip_checksum(data),
{
    let p = data.push(0);
    assert(word_count(p) == word_count(data));
    lemma_words_pad(data, word_count(data));
}

proof fn lemma_words_pad(data: Seq<u8>, n: nat)
    requires
        data.len() % 2 == 1,
        n <= word_count(data),
    ensures
        words_sum(data.push(0), n) == words_sum(data, n),
    decreases n,
{
    if n > 0 {
        let j = (n - 1) as nat;
        let p = data.push(0);
        lemma_words_pad(data, j);
        assert(p[2 * j as int] == data[2 * j as int]);
        if 2 * j + 1 < data.len() {
            assert(p[(2 * j + 1) as int] == data[(2 * j + 1) as int]);
        } else {
            assert(p[(2 * j + 1) as int] == 0);
        }
        assert(word_at(p, j) == word_at(data, j));
    }
}

fn push_octets(out: &mut Vec<u8>, ip: Ipv4Addr)
    ensures
        final(out)@ == old(out)@ + ip.spec_octets(),
{
    let o = ip.octets();
    crate::ber::push_all(out, &o);
}

fn header_with(src: Ipv4Addr, dst: Ipv4Addr, total: u16, ident: u16, order: ByteOrder, csum: u16) -> (r: Vec<u8>)
    ensures
        r@ == ipv4_header_with(src, dst, total, ident, order, csum),
{
    let mut h: Vec<u8> = Vec::new();
    h.push(0x45);
    h.push(0);
    let t = iphdr_u16_to_kernel(total, order);
    crate::ber::push_all(&mut h, &t);
    push_be(&mut h, ident as u64, 2);
    let f = iphdr_u16_to_kernel(0x4000u16, order);
    crate::ber::push_all(&mut h, &f);
    h.push(64);
    h.push(17);
    push_be(&mut h, csum as u64, 2);
    push_octets(&mut h, src);
    push_octets(&mut h, dst);
    assert(h@ =~= ipv4_header_with(src, dst, total, ident, order, csum));
    h
}

/// Builds the 20-byte IPv4 header for a UDP datagram of `udp_len` bytes;
/// the header checksum is filled in, so the header verifies.
pub fn build_ipv4_header(
    src: Ipv4Addr,
    dst: Ipv4Addr,
    udp_len: u16,
    identification: u16,
    order: ByteOrder,
) -> (r: [u8; 20])
    requires
        udp_len <= 65515,
    ensures
        r@ == ipv4_header(src, dst, udp_len, identification, order),
        spec_ip_checksum(r@) == 0,
{
    let total: u16 = 20 + udp_len;
    let zero = header_with(src, dst, total, identification, order, 0);
    let csum = ip_checksum(zero.as_slice());
    let h = header_with(src, dst, total, identification, order, csum);
    proof {
        lemma_ipv4_header_verifies(src, dst, udp_len, identification, order);
    }
    let r = [h[0], h[1], h[2], h[3], h[4], h[5], h[6], h[7], h[8], h[9], h[10], h[11], h[12], h[13], h[14], h[15], h[16], h[17], h[18], h[19]];
    assert(r@ =~= h@);
    r
}

/// The IPv4 pseudo-header, the UDP header with a zero checksum, and the
/// payload: what the UDP checksum covers.
pub open spec fn udp_pseudo(src: Ipv4Addr, dst: Ipv4Addr, src_port: u16, dst_port: u16, payload: Seq<u8>) -> Seq<u8> {
    let len = 8 + payload.len();
    src.spec_octets() + dst.spec_octets() + seq![0u8, 17u8] + be_bytes(len, 2) + be_bytes(
        src_port as nat,
        2,
    ) + be_bytes(dst_port as nat, 2) + be_bytes(len, 2) + seq![0u8, 0u8] + payload
}

/// The UDP checksum; a computed zero is sent as all ones (RFC 768).
pub open spec fn udp_checksum(src: Ipv4Addr, dst: Ipv4Addr, src_port: u16, dst_port: u16, payload: Seq<u8>) -> u16 {
    let c = spec_ip_checksum(udp_pseudo(src, dst, src_port, dst_port, payload));
    if c == 0 {
        0xFFFF
    } else {
        c
    }
}

/// A UDP datagram: header and payload.
pub open spec fn udp_datagram(src: Ipv4Addr, dst: Ipv4Addr, src_port: u16, dst_port: u16, payload: Seq<u8>) -> Seq<u8> {
    be_bytes(src_port as nat, 2) + be_bytes(dst_port as nat, 2) + be_bytes(8 + payload.len(), 2)
        + be_bytes(udp_checksum(src, dst, src_port, dst_port, payload) as nat, 2) + payload
}

/// Builds the UDP header and payload; the checksum covers the pseudo-header
/// with `src` (possibly spoofed) and is never zero on the wire.
pub fn build_udp_datagram(src: Ipv4Addr, dst: Ipv4Addr, src_port: u16, dst_port: u16, payload: &[u8]) -> (r: Vec<u8>)
    requires
        payload@.len() <= 65527,
    ensures
        r@ == udp_datagram(src, dst, src_port, dst_port, payload@),
        r@.subrange(6, 8) != seq![0u8, 0u8],
{
    let udp_len: u16 = 8 + payload.len() as u16;
    let mut pseudo: Vec<u8> = Vec::new();
    push_octets(&mut pseudo, src);
    push_octets(&mut pseudo, dst);
    pseudo.push(0);
    pseudo.push(17);
    push_be(&mut pseudo, udp_len as u64, 2);
    push_be(&mut pseudo, src_port as u64, 2);
    push_be(&mut pseudo, dst_port as u64, 2);
    push_be(&mut pseudo, udp_len as u64, 2);
    pseudo.push(0);
    pseudo.push(0);
    crate::ber::push_all(&mut pseudo, payload);
    assert(pseudo@ =~= udp_pseudo(src, dst, src_port, dst_port, payload@));
    let mut csum = ip_checksum(pseudo.as_slice());
    if csum == 0 {
        csum = 0xFFFF;
    }
    let mut out: Vec<u8> = Vec::new();
    push_be(&mut out, src_port as u64, 2);
    push_be(&mut out, dst_port as u64, 2);
    push_be(&mut out, udp_len as u64, 2);
    push_be(&mut out, csum as u64, 2);
    crate::ber::push_all(&mut out, payload);
    proof {
        lemma_be_len(src_port as nat, 2);
        lemma_be_len(dst_port as nat, 2);
        lemma_be_len(udp_len as nat, 2);
        lemma_be_len(csum as nat, 2);
        reveal_with_fuel(be_bytes, 3);
        assert(out@[6] == (csum as nat / 256 % 256) as u8);
        assert(out@[7] == (csum as nat % 256) as u8);
        if out@[6] == 0 && out@[7] == 0 {
            assert(csum == 0) by (nonlinear_arith)
                requires
                    (csum as nat / 256 % 256) as u8 == 0,
                    (csum as nat % 256) as u8 == 0,
                    csum < 65536,
            ;
        }
        assert(out@.subrange(6, 8) =~= seq![out@[6], out@[7]]);
    }
    assert(out@ =~= udp_datagram(src, dst, src_port, dst_port, payload@));
    out
}

/// The largest payload a single IPv4/UDP datagram carries
/// (`u16::MAX - 20 - 8`); past it the length fields would wrap.
pub const MAX_UDP_PAYLOAD: usize = 65507;

pub open spec fn oversize_message(len: nat) -> Seq<char> {
    "SNMP payload "@ + dec(len) + " bytes exceeds IPv4/UDP single-datagram max 65507"@
}

/// Refuses a payload that one IPv4/UDP datagram cannot carry.
pub fn check_payload_size(len: usize) -> (r: Result<(), Error>)
    ensures
        r is Ok <==> len <= MAX_UDP_PAYLOAD,
        r matches Err(e) ==> e@ == ErrorSpec::Other(oversize_message(len as nat)),
{
    if len > MAX_UDP_PAYLOAD {
        let mut m = text("SNMP payload ");
        push_dec(&mut m, len as u64);
        m.append(" bytes exceeds IPv4/UDP single-datagram max 65507");
        return Err(Error::Other(m));
    }
    Ok(())
}

/// The whole spoofed packet: IPv4 header with source `src`, then the UDP
/// datagram toward `dst`.
pub fn spoofed_packet(
    src: Ipv4Addr,
    dst: SocketAddrV4,
    src_port: u16,
    payload: &[u8],
    identification: u16,
    order: ByteOrder,
) -> (r: Vec<u8>)
    requires
        payload@.len() <= MAX_UDP_PAYLOAD,
    ensures
        r@ == ipv4_header(src, dst.ip, (8 + payload@.len()) as u16, identification, order)
            + udp_datagram(src, dst.ip, src_port, dst.port, payload@),
        spec_ip_checksum(r@.take(20)) == 0,
{
    let udp = build_udp_datagram(src, dst.ip(), src_port, dst.port(), payload);
    proof {
        lemma_be_len(src_port as nat, 2);
        lemma_be_len(dst.port as nat, 2);
        lemma_be_len(8 + payload@.len(), 2);
        lemma_be_len(udp_checksum(src, dst.ip, src_port, dst.port, payload@) as nat, 2);
    }
    let ip = build_ipv4_header(src, dst.ip(), udp.len() as u16, identification, order);
    let mut packet: Vec<u8> = Vec::new();
    crate::ber::push_all(&mut packet, &ip);
    crate::ber::push_all(&mut packet, udp.as_slice());
    assert(packet@.take(20) =~= ip@);
    packet
}

/// The `--src-addr` path needs raw IPv4 sockets with IP_HDRINCL, which this
/// program drives on Linux and macOS only.
pub fn spoofing_supported(os: &str) -> (r: Result<(), Error>)
    ensures
        r is Ok <==> (os@ == "linux"@ || os@ == "macos"@),
        r matches Err(e) ==> e@ == ErrorSpec::Unsupported(
            "--src-addr is not supported on this platform; only Linux and macOS/BSD are supported"@,
        ),
{
    if str_eq(os, "linux") || str_eq(os, "macos") {
        Ok(())
    } else {
        Err(Error::Unsupported(text(
            "--src-addr is not supported on this platform; only Linux and macOS/BSD are supported",
        )))
    }
}

/// A source port from the IANA dynamic range `49152..=65535`.
pub fn pick_ephemeral_port() -> (r: u16)
    ensures
        49152 <= r,
{
    crate::entropy::random_in(49152, 65535) as u16
}

/// A fresh IPv4 `Identification`, drawn anew for every attempt. Every
/// `u16` can come out, so the draw is all there is to state.
pub fn fresh_ip_ident() -> u16 {
    crate::entropy::random_in(0, 65535) as u16
}

// ---------------------------------------------------------------------
// Send failures
// ---------------------------------------------------------------------

/// The `errno` values the classification looks at.
#[derive(Debug, Clone, Copy, PartialEq, Eq, Structural)]
pub enum OsErrorCode {
    Perm,
    Access,
    HostUnreach,
    NetUnreach,
    AddrNotAvail,
    MsgSize,
    /// Any other code, or none.
    Other,
}

/// The `std::io::ErrorKind`s the classification looks at.
#[derive(Debug, Clone, Copy, PartialEq, Eq, Structural)]
pub enum IoKind {
    HostUnreachable,
    NetworkUnreachable,
    AddrNotAvailable,
    Interrupted,
    Other,
}

/// An operating-system error as the classification sees it, with its
/// message.
#[derive(Debug)]
pub struct OsError {
    pub code: OsErrorCode,
    pub kind: IoKind,
    pub text: String,
}

pub open spec fn kind_is_routing(k: IoKind) -> bool {
    k == IoKind::HostUnreachable || k == IoKind::NetworkUnreachable || k == IoKind::AddrNotAvailable
}

/// Opening the raw socket or setting IP_HDRINCL: `EPERM`/`EACCES` here
/// means the missing privilege (CAP_NET_RAW, or root on macOS).
pub open spec fn spec_classify_raw_open(e: OsError, platform: Platform) -> ErrorSpec {
    if e.code == OsErrorCode::Perm || e.code == OsErrorCode::Access {
        ErrorSpec::RawSocketDenied(platform, e.text@)
    } else {
        ErrorSpec::Other(e.text@)
    }
}

/// `send_to` on the open raw socket: `EACCES`/`EPERM` are then a routing
/// or policy refusal (broadcast without SO_BROADCAST, a firewall), never
/// the privilege, so they join the unreachable family.
pub open spec fn spec_classify_raw_send(e: OsError) -> ErrorSpec {
    if e.code == OsErrorCode::HostUnreach || e.code == OsErrorCode::NetUnreach || e.code
        == OsErrorCode::AddrNotAvail || e.code == OsErrorCode::MsgSize || e.code
        == OsErrorCode::Access || e.code == OsErrorCode::Perm || kind_is_routing(e.kind) {
        ErrorSpec::Routing(e.text@)
    } else {
        ErrorSpec::Other(e.text@)
    }
}

/// A failure of the ordinary UDP socket.
pub open spec fn spec_map_send_io(e: OsError) -> ErrorSpec {
    if kind_is_routing(e.kind) {
        ErrorSpec::Routing(e.text@)
    } else {
        ErrorSpec::Other(e.text@)
    }
}

pub fn classify_raw_open(err: OsError, platform: Platform) -> (r: Error)
    ensures
        r@ == spec_classify_raw_open(err, platform),
{
    match err.code {
        OsErrorCode::Perm | OsErrorCode::Access => Error::RawSocketDenied {
            platform,
            underlying: err.text,
        },
        _ => Error::Other(err.text),
    }
}

pub fn classify_raw_send(err: OsError) -> (r: Error)
    ensures
        r@ == spec_classify_raw_send(err),
{
    match err.code {
        OsErrorCode::HostUnreach | OsErrorCode::NetUnreach | OsErrorCode::AddrNotAvail
        | OsErrorCode::MsgSize | OsErrorCode::Access | OsErrorCode::Perm => Error::Routing(
            err.text,
        ),
        _ => match err.kind {
            IoKind::HostUnreachable | IoKind::NetworkUnreachable | IoKind::AddrNotAvailable =>
                Error::Routing(err.text),
            _ => Error::Other(err.text),
        },
    }
}

pub fn map_send_io(err: OsError) -> (r: Error)
    ensures
        r@ == spec_map_send_io(err),
{
    match err.kind {
        IoKind::HostUnreachable | IoKind::NetworkUnreachable | IoKind::AddrNotAvailable =>
            Error::Routing(err.text),
        _ => Error::Other(err.text),
    }
}

/// What one send attempt came to.
pub enum SendAttempt {
    Sent,
    Failed(OsError),
}

/// What to do after an attempt.
pub enum Step {
    Done(Result<(), Error>),
    Again,
}

/// How many failed attempts remain. On the raw socket an interrupted
/// `send_to` is retried without counting; on the UDP socket every failure
/// counts. After the last counted failure, that failure is the error.
pub struct SendBudget {
    pub remaining: u32,
    pub raw: bool,
}

impl SendBudget {
    /// `retries` resends after the first attempt.
    pub fn new(retries: u8, raw: bool) -> (r: SendBudget)
        ensures
            r.remaining == retries + 1,
            r.raw == raw,
    {
        SendBudget { remaining: retries as u32 + 1, raw }
    }

    pub open spec fn counts(self, e: OsError) -> bool {
        !(self.raw && e.kind == IoKind::Interrupted)
    }

    pub open spec fn final_error(self, e: OsError) -> ErrorSpec {
        if self.raw {
            spec_classify_raw_send(e)
        } else {
            spec_map_send_io(e)
        }
    }

    /// Takes the outcome of an attempt.
    pub fn step(&mut self, attempt: SendAttempt) -> (r: Step)
        requires
            old(self).remaining > 0,
        ensures
            final(self).raw == old(self).raw,
            match attempt {
                SendAttempt::Sent => r matches Step::Done(Ok(())) && final(self).remaining == old(
                    self,
                ).remaining,
                SendAttempt::Failed(e) => if !old(self).counts(e) {
                    r is Again && final(self).remaining == old(self).remaining
                } else {
                    &&& final(self).remaining == old(self).remaining - 1
                    &&& final(self).remaining == 0 ==> (r matches Step::Done(Err(x)) && x@ == old(
                        self,
                    ).final_error(e))
                    &&& final(self).remaining > 0 ==> r is Again
                },
            },
    {
        match attempt {
            SendAttempt::Sent => Step::Done(Ok(())),
            SendAttempt::Failed(e) => {
                if self.raw && e.kind == IoKind::Interrupted {
                    return Step::Again;
                }
                self.remaining = self.remaining - 1;
                if self.remaining > 0 {
                    Step::Again
                } else if self.raw {
                    Step::Done(Err(classify_raw_send(e)))
                } else {
                    Step::Done(Err(map_send_io(e)))
                }
            },
        }
    }
}

} // verus!
