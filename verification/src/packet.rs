//! Decoding of captured Ethernet frames into TCP segments, through the
//! packet views of `pnet`.
use vstd::prelude::*;

use crate::network::NetworkPacket;
use crate::text::{chars_of, decimal, push_chars, push_decimal, string_of};
use pnet::packet::ethernet::EthernetPacket;
use pnet::packet::ipv4::Ipv4Packet;
use pnet::packet::tcp::TcpPacket;
use pnet::packet::Packet;

verus! {

// ---------------------------------------------------------------------
// Header layout
// ---------------------------------------------------------------------

/// The big-endian 16-bit number at `d[i..i + 2]`.
pub open spec fn be16(d: Seq<u8>, i: int) -> int {
    d[i] as int * 256 + d[i + 1] as int
}

/// The big-endian 32-bit number at `d[i..i + 4]`.
pub open spec fn be32(d: Seq<u8>, i: int) -> int {
    be16(d, i) * 65536 + be16(d, i + 2)
}

/// Size of an Ethernet header.
pub open spec fn ethernet_header_len() -> int {
    14
}

/// EtherType of IPv4.
pub open spec fn ethertype_ipv4() -> int {
    0x0800
}

/// IP protocol number of TCP.
pub open spec fn ip_protocol_tcp() -> int {
    6
}

/// What follows the IPv4 header, as far as the total length says and the
/// bytes at hand reach. The header length in 32-bit words is the low
/// nibble of the first byte; a header shorter than 20 bytes counts as 20.
pub open spec fn ipv4_payload_of(d: Seq<u8>) -> Seq<u8> {
    let hl4 = (d[0] % 16) as int * 4;
    let start = 20 + (if hl4 > 20 {
        hl4 - 20
    } else {
        0
    });
    let plen = if be16(d, 2) > hl4 {
        be16(d, 2) - hl4
    } else {
        0
    };
    if d.len() <= start {
        Seq::empty()
    } else if start + plen < d.len() {
        d.subrange(start, start + plen)
    } else {
        d.subrange(start, d.len() as int)
    }
}

/// What follows the TCP header: the data offset in 32-bit words is the high
/// nibble of byte 12; an offset of five words or less counts as 20 bytes.
pub open spec fn tcp_payload_of(d: Seq<u8>) -> Seq<u8> {
    let off = (d[12] / 16) as int;
    let start = 20 + (if off > 5 {
        off * 4 - 20
    } else {
        0
    });
    if d.len() <= start {
        Seq::empty()
    } else {
        d.subrange(start, d.len() as int)
    }
}

// ---------------------------------------------------------------------
// Views of pnet
// ---------------------------------------------------------------------

/// `EthernetPacket::new` and `get_ethertype`: a frame of at least 14 bytes
/// has the big-endian EtherType at bytes 12..14; a shorter one is refused.
#[verifier::external_body]
fn ethernet_ethertype(d: &[u8]) -> (r: Option<u16>)
    ensures
        r is Some <==> d@.len() >= 14,
        r matches Some(t) ==> t == be16(d@, 12),
{
    match EthernetPacket::new(d) {
        Some(p) => Some(p.get_ethertype().0),
        None => None,
    }
}

/// `EthernetPacket::new` and `payload`: the bytes after the 14-byte header.
#[verifier::external_body]
fn ethernet_payload(d: &[u8]) -> (r: Option<Vec<u8>>)
    ensures
        r is Some <==> d@.len() >= 14,
        r matches Some(p) ==> p@ == d@.subrange(14, d@.len() as int),
{
    match EthernetPacket::new(d) {
        Some(p) => Some(p.payload().to_vec()),
        None => None,
    }
}

/// `Ipv4Packet::new` and `get_next_level_protocol`: byte 9 of a header of
/// at least 20 bytes.
#[verifier::external_body]
fn ipv4_next_protocol(d: &[u8]) -> (r: Option<u8>)
    ensures
        r is Some <==> d@.len() >= 20,
        r matches Some(p) ==> p == d@[9],
{
    match Ipv4Packet::new(d) {
        Some(p) => Some(p.get_next_level_protocol().0),
        None => None,
    }
}

/// `Ipv4Packet::new` and `get_source`: bytes 12..16.
#[verifier::external_body]
fn ipv4_source(d: &[u8]) -> (r: Option<[u8; 4]>)
    ensures
        r is Some <==> d@.len() >= 20,
        r matches Some(a) ==> a@ == d@.subrange(12, 16),
{
    match Ipv4Packet::new(d) {
        Some(p) => Some(p.get_source().octets()),
        None => None,
    }
}

/// `Ipv4Packet::new` and `get_destination`: bytes 16..20.
#[verifier::external_body]
fn ipv4_destination(d: &[u8]) -> (r: Option<[u8; 4]>)
    ensures
        r is Some <==> d@.len() >= 20,
        r matches Some(a) ==> a@ == d@.subrange(16, 20),
{
    match Ipv4Packet::new(d) {
        Some(p) => Some(p.get_destination().octets()),
        None => None,
    }
}

/// `Ipv4Packet::new` and `payload` (see `ipv4_payload_of`).
#[verifier::external_body]
fn ipv4_payload(d: &[u8]) -> (r: Option<Vec<u8>>)
    ensures
        r is Some <==> d@.len() >= 20,
        r matches Some(p) ==> p@ == ipv4_payload_of(d@),
{
    match Ipv4Packet::new(d) {
        Some(p) => Some(p.payload().to_vec()),
        None => None,
    }
}

/// `TcpPacket::new` and `get_source`: the big-endian port at bytes 0..2 of
/// a header of at least 20 bytes.
#[verifier::external_body]
fn tcp_source_port(d: &[u8]) -> (r: Option<u16>)
    ensures
        r is Some <==> d@.len() >= 20,
        r matches Some(p) ==> p == be16(d@, 0),
{
    match TcpPacket::new(d) {
        Some(p) => Some(p.get_source()),
        None => None,
    }
}

/// `TcpPacket::new` and `get_destination`: the port at bytes 2..4.
#[verifier::external_body]
fn tcp_destination_port(d: &[u8]) -> (r: Option<u16>)
    ensures
        r is Some <==> d@.len() >= 20,
        r matches Some(p) ==> p == be16(d@, 2),
{
    match TcpPacket::new(d) {
        Some(p) => Some(p.get_destination()),
        None => None,
    }
}

/// `TcpPacket::new` and `get_sequence`: the big-endian number at bytes 4..8.
#[verifier::external_body]
fn tcp_sequence(d: &[u8]) -> (r: Option<u32>)
    ensures
        r is Some <==> d@.len() >= 20,
        r matches Some(s) ==> s == be32(d@, 4),
{
    match TcpPacket::new(d) {
        Some(p) => Some(p.get_sequence()),
        None => None,
    }
}

/// `TcpPacket::new` and `get_acknowledgement`: the number at bytes 8..12.
#[verifier::external_body]
fn tcp_acknowledgement(d: &[u8]) -> (r: Option<u32>)
    ensures
        r is Some <==> d@.len() >= 20,
        r matches Some(s) ==> s == be32(d@, 8),
{
    match TcpPacket::new(d) {
        Some(p) => Some(p.get_acknowledgement()),
        None => None,
    }
}

/// `TcpPacket::new` and `get_flags`: byte 13.
#[verifier::external_body]
fn tcp_flags(d: &[u8]) -> (r: Option<u8>)
    ensures
        r is Some <==> d@.len() >= 20,
        r matches Some(f) ==> f == d@[13],
{
    match TcpPacket::new(d) {
        Some(p) => Some(p.get_flags()),
        None => None,
    }
}

/// `TcpPacket::new` and `payload` (see `tcp_payload_of`).
#[verifier::external_body]
fn tcp_payload(d: &[u8]) -> (r: Option<Vec<u8>>)
    ensures
        r is Some <==> d@.len() >= 20,
        r matches Some(p) ==> p@ == tcp_payload_of(d@),
{
    match TcpPacket::new(d) {
        Some(p) => Some(p.payload().to_vec()),
        None => None,
    }
}

/// The current time in milliseconds since the Unix epoch
/// (`chrono::Utc::now`). Nothing is stated of the value.
#[verifier::external_body]
fn now_millis() -> (r: i64) {
    chrono::Utc::now().timestamp_millis()
}

// ---------------------------------------------------------------------
// Addresses
// ---------------------------------------------------------------------

/// An IPv4 address in dotted-decimal form, as `Ipv4Addr` displays it.
pub open spec fn dotted_quad(a: Seq<u8>) -> Seq<char> {
    decimal(a[0] as nat) + "."@ + decimal(a[1] as nat) + "."@ + decimal(a[2] as nat) + "."@
        + decimal(a[3] as nat)
}

/// The dotted-decimal form of an IPv4 address.
pub fn format_ipv4(a: &[u8; 4]) -> (r: String)
    ensures
        r@ == dotted_quad(a@),
{
    let mut v: Vec<char> = Vec::new();
    let dot = chars_of(".");
    push_decimal(&mut v, a[0] as u64);
    push_chars(&mut v, &dot);
    push_decimal(&mut v, a[1] as u64);
    push_chars(&mut v, &dot);
    push_decimal(&mut v, a[2] as u64);
    push_chars(&mut v, &dot);
    push_decimal(&mut v, a[3] as u64);
    assert(v@.subrange(0, v@.len() as int) =~= v@);
    string_of(&v, 0, v.len())
}

// ---------------------------------------------------------------------
// Frames
// ---------------------------------------------------------------------

/// The IPv4 packet that a frame carries, when it carries a TCP segment:
/// the frame is at least 14 bytes with EtherType IPv4, and the IPv4 header
/// is at least 20 bytes with protocol TCP, and the segment at least 20.
pub open spec fn frame_carries_tcp(d: Seq<u8>) -> bool {
    let ip = d.subrange(14, d.len() as int);
    &&& d.len() >= 14
    &&& be16(d, 12) == ethertype_ipv4()
    &&& ip.len() >= 20
    &&& ip[9] == ip_protocol_tcp()
    &&& ipv4_payload_of(ip).len() >= 20
}

/// `p` is the record of the TCP segment in frame `d`, captured at `ts`.
pub open spec fn is_segment_record(d: Seq<u8>, ts: i64, p: NetworkPacket) -> bool {
    let ip = d.subrange(14, d.len() as int);
    let seg = ipv4_payload_of(ip);
    &&& p.src_ip@ == dotted_quad(ip.subrange(12, 16))
    &&& p.dst_ip@ == dotted_quad(ip.subrange(16, 20))
    &&& p.src_port == be16(seg, 0)
    &&& p.dst_port == be16(seg, 2)
    &&& p._protocol@ == "TCP"@
    &&& p.payload@ == tcp_payload_of(seg)
    &&& p._timestamp == ts
    &&& p._tcp_seq == Some(be32(seg, 4) as u32)
    &&& p._tcp_ack == Some(be32(seg, 8) as u32)
    &&& p._tcp_flags == Some(seg[13])
}

/// Decodes a captured frame taken at time `ts`: a TCP segment over IPv4
/// gives its record; any other frame gives nothing.
pub fn parse_packet_at(data: &[u8], ts: i64) -> (r: Option<NetworkPacket>)
    ensures
        r is Some <==> frame_carries_tcp(data@),
        r matches Some(p) ==> is_segment_record(data@, ts, p),
{
    let ethertype = match ethernet_ethertype(data) {
        Some(t) => t,
        None => return None,
    };
    if ethertype != 0x0800 {
        return None;
    }
    let ip = match ethernet_payload(data) {
        Some(p) => p,
        None => return None,
    };
    let protocol = match ipv4_next_protocol(&ip) {
        Some(p) => p,
        None => return None,
    };
    if protocol != 6 {
        return None;
    }
    let src = match ipv4_source(&ip) {
        Some(a) => a,
        None => return None,
    };
    let dst = match ipv4_destination(&ip) {
        Some(a) => a,
        None => return None,
    };
    let seg = match ipv4_payload(&ip) {
        Some(s) => s,
        None => return None,
    };
    let src_port = match tcp_source_port(&seg) {
        Some(p) => p,
        None => return None,
    };
    let dst_port = match tcp_destination_port(&seg) {
        Some(p) => p,
        None => return None,
    };
    let seq = match tcp_sequence(&seg) {
        Some(s) => s,
        None => return None,
    };
    let ack = match tcp_acknowledgement(&seg) {
        Some(s) => s,
        None => return None,
    };
    let flags = match tcp_flags(&seg) {
        Some(f) => f,
        None => return None,
    };
    let payload = match tcp_payload(&seg) {
        Some(p) => p,
        None => return None,
    };
    Some(
        NetworkPacket {
            src_ip: format_ipv4(&src),
            dst_ip: format_ipv4(&dst),
            src_port,
            dst_port,
            _protocol: "TCP".to_owned(),
            payload,
            _timestamp: ts,
            _tcp_seq: Some(seq),
            _tcp_ack: Some(ack),
            _tcp_flags: Some(flags),
        },
    )
}

/// Decodes a frame captured now (see `parse_packet_at`).
pub fn parse_packet(data: &[u8]) -> (r: Option<NetworkPacket>)
    ensures
        r is Some <==> frame_carries_tcp(data@),
        r matches Some(p) ==> is_segment_record(data@, p._timestamp, p),
{
    let ts = now_millis();
    parse_packet_at(data, ts)
}

} // verus!
