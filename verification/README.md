# snmptrap-rs

Send SNMPv1, SNMPv2c and SNMPv3 traps, optionally from a spoofed IPv4
source address (raw socket with `IP_HDRINCL`).

The library under `src/` is verified with Verus: every message byte it
emits, every error text, and every decision about the command line is
specified and proved.

- `ber` — BER (X.690) TLVs, INTEGER and OBJECT IDENTIFIER contents. The
  message encoder is written and proved here rather than taken from an
  ASN.1 crate; the tests hold its output against `rasn`/`rasn-snmp`, and
  its refusal of an unencodable OBJECT IDENTIFIER uses the same words.
- `decode` — reading BER back: a v2c trap message reads back as its
  community, request-id, zero error fields and var-binds in order.
- `lex`, `split`, `text`, `net` — character scanning, integer parsing with
  the standard library's accept/reject behaviour, decimal rendering, IPv4
  literals.
- `varbind` — the `OID TYPE VALUE` grammar and its value types.
- `pdu` — SNMPv1 and SNMPv2c trap messages.
- `engine` — RFC 3411 engine-IDs: parsing `-E`/`-e`, the default cascade
  (source address, host MAC, host name).
- `usm` — USM password localization, HMAC tags and AES-CFB privacy; the
  digests and ciphers are those of the RustCrypto crates.
- `v3` — SNMPv3 messages with USM security parameters; zeroing the tag of a
  built message gives back the bytes the tag authenticates.
- `cli`, `payload` — option cross-checks and the payload of each version.
- `transport` — IPv4/UDP headers and checksums (a filled-in checksum
  verifies; zero-padding an odd length changes nothing), send-failure
  classification, the retry budget.
- `debug` — the `--debug-print-pdu` header and hex dump.
- `error` — errors, exit codes and their texts.

`app/` holds the program around it: argument parsing (clap), reading host
facts (uptime, interfaces, host name, egress address), name resolution and
the sockets.
