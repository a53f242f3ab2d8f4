//! The headers of Ethernet frames and of IPv4, TCP, UDP and ICMP packets,
//! read with `pnet`'s packet types.
use vstd::prelude::*;
use pnet::packet::Packet;
use crate::text::{decimal, push_char, push_decimal};

verus! {

/// The 16-bit big-endian number at `i`.
pub open spec fn be16(b: Seq<u8>, i: int) -> u16 {
    (b[i] as nat * 256 + b[i + 1] as nat) as u16
}

/// The 32-bit big-endian number at `i`.
pub open spec fn be32(b: Seq<u8>, i: int) -> u32 {
    (b[i] as nat * 16777216 + b[i + 1] as nat * 65536 + b[i + 2] as nat * 256 + b[i
        + 3] as nat) as u32
}

/// The payload of an IPv4 packet as `pnet` delimits it: it starts after the
/// header (never before byte 20), runs for the total length less the header
/// length, and is cut at the end of the buffer.
pub open spec fn ipv4_payload(b: Seq<u8>) -> Seq<u8> {
    let header = (b[0] % 16) as int * 4;
    let total = be16(b, 2) as int;
    let start = if header > 20 {
        header
    } else {
        20
    };
    let length = if total >= header {
        total - header
    } else {
        0
    };
    let end = if start + length < b.len() {
        start + length
    } else {
        b.len() as int
    };
    if b.len() <= start {
        Seq::empty()
    } else {
        b.subrange(start, end)
    }
}

/// The fields of an IPv4 packet that the library reads.
pub struct Ipv4Datagram {
    pub header_length: u8,
    pub total_length: u16,
    pub next_level_protocol: u8,
    pub source: u32,
    pub destination: u32,
    pub payload: Vec<u8>,
}

/// `d` holds the fields of the IPv4 packet `b`.
pub open spec fn ipv4_fields(b: Seq<u8>, d: Ipv4Datagram) -> bool {
    &&& d.header_length == b[0] % 16
    &&& d.total_length == be16(b, 2)
    &&& d.next_level_protocol == b[9]
    &&& d.source == be32(b, 12)
    &&& d.destination == be32(b, 16)
    &&& d.payload@ == ipv4_payload(b)
}

/// Reads an IPv4 packet with `pnet::packet::ipv4::Ipv4Packet::new` and its
/// getters. The contract states what `pnet`'s generated code does: the
/// packet is refused below 20 bytes; the fields are read big-endian at
/// their offsets; the payload is delimited as `ipv4_payload` says.
#[verifier::external_body]
fn pnet_ipv4(bytes: &[u8]) -> (r: Option<Ipv4Datagram>)
    ensures
        r is Some <==> bytes@.len() >= 20,
        r matches Some(d) ==> ipv4_fields(bytes@, d),
{
    pnet::packet::ipv4::Ipv4Packet::new(bytes).map(
        |p|
            Ipv4Datagram {
                header_length: p.get_header_length(),
                total_length: p.get_total_length(),
                next_level_protocol: p.get_next_level_protocol().0,
                source: u32::from(p.get_source()),
                destination: u32::from(p.get_destination()),
                payload: p.payload().to_vec(),
            },
    )
}

impl Ipv4Datagram {
    /// The IPv4 packet in `bytes`; `None` below the 20 bytes of a header.
    pub fn parse(bytes: &[u8]) -> (r: Option<Ipv4Datagram>)
        ensures
            r is Some <==> bytes@.len() >= 20,
            r matches Some(d) ==> ipv4_fields(bytes@, d),
    {
        pnet_ipv4(bytes)
    }
}

/// The fields of a TCP header that the library reads.
pub struct TcpSegment {
    pub source: u16,
    pub destination: u16,
    pub sequence: u32,
    pub acknowledgement: u32,
    pub window: u16,
}

/// `t` holds the fields of the TCP header at the start of `b`.
pub open spec fn tcp_fields(b: Seq<u8>, t: TcpSegment) -> bool {
    &&& t.source == be16(b, 0)
    &&& t.destination == be16(b, 2)
    &&& t.sequence == be32(b, 4)
    &&& t.acknowledgement == be32(b, 8)
    &&& t.window == be16(b, 14)
}

/// Reads a TCP header with `pnet::packet::tcp::TcpPacket::new` and its
/// getters. The contract states what `pnet`'s generated code does: the
/// header is refused below 20 bytes; the fields are read big-endian at
/// their offsets.
#[verifier::external_body]
fn pnet_tcp(bytes: &[u8]) -> (r: Option<TcpSegment>)
    ensures
        r is Some <==> bytes@.len() >= 20,
        r matches Some(t) ==> tcp_fields(bytes@, t),
{
    pnet::packet::tcp::TcpPacket::new(bytes).map(
        |p|
            TcpSegment {
                source: p.get_source(),
                destination: p.get_destination(),
                sequence: p.get_sequence(),
                acknowledgement: p.get_acknowledgement(),
                window: p.get_window(),
            },
    )
}

impl TcpSegment {
    /// The TCP header at the start of `bytes`; `None` below 20 bytes.
    pub fn parse(bytes: &[u8]) -> (r: Option<TcpSegment>)
        ensures
            r is Some <==> bytes@.len() >= 20,
            r matches Some(t) ==> tcp_fields(bytes@, t),
    {
        pnet_tcp(bytes)
    }
}

/// The ports of a UDP header.
pub struct UdpHeader {
    pub source: u16,
    pub destination: u16,
}

/// Reads a UDP header with `pnet::packet::udp::UdpPacket::new` and its
/// getters. The contract states what `pnet`'s generated code does: the
/// header is refused below 8 bytes; the ports are its first two big-endian
/// 16-bit numbers.
#[verifier::external_body]
fn pnet_udp(bytes: &[u8]) -> (r: Option<UdpHeader>)
    ensures
        r is Some <==> bytes@.len() >= 8,
        r matches Some(u) ==> u.source == be16(bytes@, 0) && u.destination == be16(bytes@, 2),
{
    pnet::packet::udp::UdpPacket::new(bytes).map(
        |p| UdpHeader { source: p.get_source(), destination: p.get_destination() },
    )
}

impl UdpHeader {
    /// The UDP header at the start of `bytes`; `None` below 8 bytes.
    pub fn parse(bytes: &[u8]) -> (r: Option<UdpHeader>)
        ensures
            r is Some <==> bytes@.len() >= 8,
            r matches Some(u) ==> u.source == be16(bytes@, 0) && u.destination == be16(
                bytes@,
                2,
            ),
    {
        pnet_udp(bytes)
    }
}

/// The type and code of an ICMP message.
pub struct IcmpHeader {
    pub icmp_type: u8,
    pub icmp_code: u8,
}

/// Reads an ICMP header with `pnet::packet::icmp::IcmpPacket::new` and its
/// getters. The contract states what `pnet`'s generated code does: the
/// header is refused below 4 bytes; type and code are its first two bytes.
#[verifier::external_body]
fn pnet_icmp(bytes: &[u8]) -> (r: Option<IcmpHeader>)
    ensures
        r is Some <==> bytes@.len() >= 4,
        r matches Some(h) ==> h.icmp_type == bytes@[0] && h.icmp_code == bytes@[1],
{
    pnet::packet::icmp::IcmpPacket::new(bytes).map(
        |p| IcmpHeader { icmp_type: p.get_icmp_type().0, icmp_code: p.get_icmp_code().0 },
    )
}

impl IcmpHeader {
    /// The ICMP header at the start of `bytes`; `None` below 4 bytes.
    pub fn parse(bytes: &[u8]) -> (r: Option<IcmpHeader>)
        ensures
            r is Some <==> bytes@.len() >= 4,
            r matches Some(h) ==> h.icmp_type == bytes@[0] && h.icmp_code == bytes@[1],
    {
        pnet_icmp(bytes)
    }
}

/// The ethertype and the payload of an Ethernet frame.
pub struct EthernetFrame {
    pub ethertype: u16,
    pub payload: Vec<u8>,
}

/// The ethertype of IPv4.
pub const ETHERTYPE_IPV4: u16 = 0x0800;

/// Reads an Ethernet frame with `pnet::packet::ethernet::EthernetPacket::new`
/// and its getters. The contract states what `pnet`'s generated code does:
/// the frame is refused below 14 bytes; the ethertype is the big-endian
/// number at byte 12; the payload is everything after byte 14.
#[verifier::external_body]
fn pnet_ethernet(bytes: &[u8]) -> (r: Option<EthernetFrame>)
    ensures
        r is Some <==> bytes@.len() >= 14,
        r matches Some(f) ==> f.ethertype == be16(bytes@, 12) && f.payload@ == bytes@.subrange(
            14,
            bytes@.len() as int,
        ),
{
    pnet::packet::ethernet::EthernetPacket::new(bytes).map(
        |p| EthernetFrame { ethertype: p.get_ethertype().0, payload: p.payload().to_vec() },
    )
}

impl EthernetFrame {
    /// The Ethernet frame in `bytes`; `None` below the 14 bytes of a header.
    pub fn parse(bytes: &[u8]) -> (r: Option<EthernetFrame>)
        ensures
            r is Some <==> bytes@.len() >= 14,
            r matches Some(f) ==> f.ethertype == be16(bytes@, 12) && f.payload@
                == bytes@.subrange(14, bytes@.len() as int),
    {
        pnet_ethernet(bytes)
    }
}

/// An IPv4 address in dotted decimal, as `Ipv4Addr` displays it: "10.0.0.1".
pub open spec fn ipv4_text(addr: u32) -> Seq<char> {
    decimal(addr as nat / 16777216) + seq!['.'] + decimal((addr as nat / 65536) % 256) + seq![
        '.',
    ] + decimal((addr as nat / 256) % 256) + seq!['.'] + decimal(addr as nat % 256)
}

/// The address whose octets, first to last, are `a`, `b`, `c` and `d`.
pub open spec fn address_of_octets(a: u8, b: u8, c: u8, d: u8) -> u32 {
    (a as nat * 16777216 + b as nat * 65536 + c as nat * 256 + d as nat) as u32
}

/// Four octets in dotted decimal, first to last: "10.1.2.3".
pub open spec fn dotted_octets(a: u8, b: u8, c: u8, d: u8) -> Seq<char> {
    decimal(a as nat) + seq!['.'] + decimal(b as nat) + seq!['.'] + decimal(c as nat) + seq!['.']
        + decimal(d as nat)
}

/// An address is its four octets, the first most significant: each octet
/// is read back from it, and its text is the octets in dotted decimal.
pub proof fn lemma_address_octets(a: u8, b: u8, c: u8, d: u8)
    ensures
        address_of_octets(a, b, c, d) as nat / 16777216 == a,
        (address_of_octets(a, b, c, d) as nat / 65536) % 256 == b,
        (address_of_octets(a, b, c, d) as nat / 256) % 256 == c,
        address_of_octets(a, b, c, d) as nat % 256 == d,
        ipv4_text(address_of_octets(a, b, c, d)) == dotted_octets(a, b, c, d),
{
    let x = address_of_octets(a, b, c, d);
    assert(x == a * 16777216 + b * 65536 + c * 256 + d);
    assert(x / 16777216 == a && (x / 65536) % 256 == b && (x / 256) % 256 == c && x % 256 == d)
        by (bit_vector)
        requires
            x == a * 16777216 + b * 65536 + c * 256 + d,
    ;
}

/// The four bytes at `i` read big-endian are the address of those octets.
pub proof fn lemma_be32_octets(b: Seq<u8>, i: int)
    requires
        0 <= i,
        i + 4 <= b.len(),
    ensures
        be32(b, i) == address_of_octets(b[i], b[i + 1], b[i + 2], b[i + 3]),
{
}

/// The dotted decimal text of an IPv4 address.
pub fn format_ipv4(addr: u32) -> (r: String)
    ensures
        r@ == ipv4_text(addr),
{
    let mut out = String::new();
    push_decimal(&mut out, (addr / 16777216) as u128);
    push_char(&mut out, '.');
    push_decimal(&mut out, ((addr / 65536) % 256) as u128);
    push_char(&mut out, '.');
    push_decimal(&mut out, ((addr / 256) % 256) as u128);
    push_char(&mut out, '.');
    push_decimal(&mut out, (addr % 256) as u128);
    assert(out@ =~= ipv4_text(addr));
    out
}

} // verus!
