//! The `--debug-print-pdu` output: a one-line header naming where the
//! message goes (the community redacted), then an `xxd`-style hex and ASCII
//! dump of the encoded bytes.

use vstd::prelude::*;
use vstd::string::*;
use crate::cli::SnmpVersion;
use crate::lex::hex_digit_char;
use crate::net::{ipv4_text, push_ipv4, push_socket, socket_text, Ipv4Addr, SocketAddrV4};
use crate::text::{dec, push_char, push_dec, text};

verus! {

/// `v` in lower-case hex, at least `w` digits (zero-padded).
pub open spec fn hex_lz(v: nat, w: nat) -> Seq<char>
    decreases v + w,
{
    if v == 0 && w == 0 {
        Seq::<char>::empty()
    } else {
        hex_lz(v / 16, if w > 0 { (w - 1) as nat } else { 0 }).push(hex_digit_char(v % 16))
    }
}

/// `{:02x} ` for each byte, with an extra space before the ninth.
pub open spec fn bytes_part(chunk: Seq<u8>, j: nat) -> Seq<char>
    decreases j,
{
    if j == 0 {
        Seq::<char>::empty()
    } else {
        bytes_part(chunk, (j - 1) as nat) + (if j - 1 == 8 { " "@ } else { Seq::<char>::empty() })
            + hex_lz(chunk[j - 1] as nat, 2) + " "@
    }
}

/// Blank columns for the bytes a short last line lacks.
pub open spec fn pad_part(len: nat, i: nat) -> Seq<char>
    decreases i,
{
    if i == 0 {
        Seq::<char>::empty()
    } else {
        pad_part(len, (i - 1) as nat) + (if len + i - 1 == 8 { " "@ } else { Seq::<char>::empty() })
            + "   "@
    }
}

/// Printable ASCII (graphic or space) as itself, anything else as `.`.
pub open spec fn ascii_char(b: u8) -> char {
    if (0x21 <= b && b <= 0x7e) || b == 0x20 {
        b as char
    } else {
        '.'
    }
}

pub open spec fn ascii_part(chunk: Seq<u8>, j: nat) -> Seq<char>
    decreases j,
{
    if j == 0 {
        Seq::<char>::empty()
    } else {
        ascii_part(chunk, (j - 1) as nat).push(ascii_char(chunk[j - 1]))
    }
}

/// One line: offset, hex columns, ASCII column.
pub open spec fn dump_line(chunk: Seq<u8>, offset: nat) -> Seq<char> {
    hex_lz(offset, 8) + ": "@ + bytes_part(chunk, chunk.len()) + pad_part(
        chunk.len(),
        (16 - chunk.len()) as nat,
    ) + " "@ + ascii_part(chunk, chunk.len()) + "\n"@
}

pub open spec fn chunk_at(data: Seq<u8>, i: nat) -> Seq<u8> {
    data.subrange((16 * i) as int, if 16 * i + 16 <= data.len() { (16 * i + 16) as int } else { data.len() as int })
}

pub open spec fn dump_lines(data: Seq<u8>, k: nat) -> Seq<char>
    decreases k,
{
    if k == 0 {
        Seq::<char>::empty()
    } else {
        dump_lines(data, (k - 1) as nat) + dump_line(chunk_at(data, (k - 1) as nat), 16 * (k - 1) as nat)
    }
}

/// The whole dump: one line per 16 bytes.
pub open spec fn hex_dump(data: Seq<u8>) -> Seq<char> {
    dump_lines(data, ((data.len() + 15) / 16) as nat)
}

fn push_hex_digit(s: &mut String, d: u64)
    requires
        d < 16,
    ensures
        final(s)@ == old(s)@.push(hex_digit_char(d as nat)),
{
    let b: u8 = if d < 10 { 48 + d as u8 } else { 87 + d as u8 };
    push_char(s, b as char);
}

/// Appends `v` in lower-case hex, at least `w` digits.
fn push_hex(s: &mut String, v: u64, w: u64)
    requires
        w < 64,
    ensures
        final(s)@ == old(s)@ + hex_lz(v as nat, w as nat),
    decreases v + w,
{
    if v == 0 && w == 0 {
        assert(final(s)@ =~= old(s)@ + hex_lz(v as nat, w as nat));
    } else {
        let w2: u64 = if w > 0 { w - 1 } else { 0 };
        push_hex(s, v / 16, w2);
        push_hex_digit(s, v % 16);
        assert(final(s)@ =~= old(s)@ + hex_lz(v as nat, w as nat));
    }
}

fn push_line(s: &mut String, data: &[u8], from: usize, to: usize)
    requires
        from <= to <= data@.len(),
        to - from <= 16,
    ensures
        final(s)@ == old(s)@ + dump_line(data@.subrange(from as int, to as int), from as nat),
{
    let ghost chunk = data@.subrange(from as int, to as int);
    let len = to - from;
    push_hex(s, from as u64, 8);
    s.append(": ");
    let ghost head = s@;
    let mut j: usize = 0;
    while j < len
        invariant
            from <= to <= data@.len(),
            len == to - from,
            chunk == data@.subrange(from as int, to as int),
            0 <= j <= len,
            s@ == head + bytes_part(chunk, j as nat),
        decreases len - j,
    {
        if j == 8 {
            s.append(" ");
        }
        push_hex(s, data[from + j] as u64, 2);
        s.append(" ");
        assert(chunk[j as int] == data@[from + j]);
        j = j + 1;
        assert(s@ =~= head + bytes_part(chunk, j as nat));
    }
    let ghost head2 = s@;
    let pad = 16 - len;
    let mut i: usize = 0;
    while i < pad
        invariant
            pad == 16 - len,
            len <= 16,
            0 <= i <= pad,
            s@ == head2 + pad_part(len as nat, i as nat),
        decreases pad - i,
    {
        if len + i == 8 {
            s.append(" ");
        }
        s.append("   ");
        i = i + 1;
        assert(s@ =~= head2 + pad_part(len as nat, i as nat));
    }
    s.append(" ");
    let ghost head3 = s@;
    let mut j: usize = 0;
    while j < len
        invariant
            from <= to <= data@.len(),
            len == to - from,
            chunk == data@.subrange(from as int, to as int),
            0 <= j <= len,
            s@ == head3 + ascii_part(chunk, j as nat),
        decreases len - j,
    {
        let b = data[from + j];
        assert(chunk[j as int] == b);
        if (0x21 <= b && b <= 0x7e) || b == 0x20 {
            push_char(s, b as char);
        } else {
            push_char(s, '.');
        }
        j = j + 1;
        assert(s@ =~= head3 + ascii_part(chunk, j as nat));
    }
    s.append("\n");
    assert(s@ =~= old(s)@ + dump_line(chunk, from as nat));
}

/// An `xxd`-style dump of `data`: `00000000: ` offsets, 16 bytes per line in
/// hex (a gap after the eighth), then the printable ASCII.
pub fn write_hex_dump(data: &[u8]) -> (r: String)
    ensures
        r@ == hex_dump(data@),
{
    let mut s = String::new();
    let lines = data.len() / 16 + if data.len() % 16 == 0 { 0 } else { 1 };
    assert(lines == (data@.len() + 15) / 16);
    let mut k: usize = 0;
    while k < lines
        invariant
            lines == (data@.len() + 15) / 16,
            0 <= k <= lines,
            s@ == dump_lines(data@, k as nat),
        decreases lines - k,
    {
        let n = data.len();
        assert(16 * k < n) by (nonlinear_arith)
            requires
                k < lines,
                lines == (n + 15) / 16,
        ;
        let from = 16 * k;
        let to = if data.len() - from >= 16 { from + 16 } else { data.len() };
        push_line(&mut s, data, from, to);
        k = k + 1;
    }
    s
}

pub open spec fn version_text(v: SnmpVersion) -> Seq<char> {
    match v {
        SnmpVersion::V1 => "1"@,
        SnmpVersion::V2c => "2c"@,
        SnmpVersion::V3 => "3"@,
    }
}

/// The header line: version, destination, source (`<kernel-selected>`
/// without `--src-addr`), source port (`<ephemeral>` without
/// `--src-port`), the community as `***`, and the payload size.
pub open spec fn pre_send_header(
    version: SnmpVersion,
    dst: SocketAddrV4,
    src: Option<Ipv4Addr>,
    src_port: Option<u16>,
    payload_len: nat,
) -> Seq<char> {
    "[debug] snmp_version="@ + version_text(version) + " dst="@ + socket_text(dst) + " src="@
        + match src {
        Some(a) => ipv4_text(a),
        None => "<kernel-selected>"@,
    } + " src_port="@ + match src_port {
        Some(p) => dec(p as nat),
        None => "<ephemeral>"@,
    } + " community=*** payload_bytes="@ + dec(payload_len) + "\n"@
}

/// The debug output written before a send: the header line, then the dump
/// of the payload bytes.
pub fn print_pre_send_dump(
    version: SnmpVersion,
    dst: SocketAddrV4,
    src: Option<Ipv4Addr>,
    src_port: Option<u16>,
    payload: &[u8],
) -> (r: String)
    ensures
        r@ == pre_send_header(version, dst, src, src_port, payload@.len()) + hex_dump(payload@),
{
    let mut s = text("[debug] snmp_version=");
    match version {
        SnmpVersion::V1 => s.append("1"),
        SnmpVersion::V2c => s.append("2c"),
        SnmpVersion::V3 => s.append("3"),
    }
    s.append(" dst=");
    push_socket(&mut s, dst);
    s.append(" src=");
    match src {
        Some(a) => push_ipv4(&mut s, a),
        None => s.append("<kernel-selected>"),
    }
    s.append(" src_port=");
    match src_port {
        Some(p) => push_dec(&mut s, p as u64),
        None => s.append("<ephemeral>"),
    }
    s.append(" community=*** payload_bytes=");
    push_dec(&mut s, payload.len() as u64);
    s.append("\n");
    let dump = write_hex_dump(payload);
    s.append(dump.as_str());
    assert(s@ =~= pre_send_header(version, dst, src, src_port, payload@.len()) + hex_dump(payload@));
    s
}

} // verus!
