//! The handling of IPv4 packets by their protocol: what is reported of a
//! TCP, UDP or ICMP packet, and how the traffic metrics count it.
use vstd::prelude::*;
use crate::listener::metrics::{TrafficMetrics, has_room, metrics_after_add};
use crate::listener::packets::{
    IcmpHeader,
    Ipv4Datagram,
    TcpSegment,
    UdpHeader,
    be16,
    be32,
    dotted_octets,
    format_ipv4,
    ipv4_fields,
    ipv4_text,
    lemma_address_octets,
    lemma_be32_octets,
};
use crate::listener::types::PacketInfo;
use crate::text::string_of;

verus! {

/// The IP protocol number of TCP.
pub const IP_PROTOCOL_TCP: u8 = 6;

/// The IP protocol number of UDP.
pub const IP_PROTOCOL_UDP: u8 = 17;

/// The IP protocol number of ICMP.
pub const IP_PROTOCOL_ICMP: u8 = 1;

/// What is reported of a TCP packet.
#[derive(Debug, Clone, PartialEq)]
pub struct TcpReport {
    pub info: PacketInfo,
    pub sequence: u32,
    pub acknowledgement: u32,
    pub window: u16,
}

/// What is reported of an ICMP packet.
#[derive(Debug, Clone, PartialEq)]
pub struct IcmpReport {
    pub src_ip: String,
    pub dst_ip: String,
    pub payload_size: u64,
    pub icmp_type: u8,
    pub icmp_code: u8,
}

/// What became of an IPv4 packet, by its protocol. `None` stands for a
/// payload too short for the protocol's header.
#[derive(Debug, Clone, PartialEq)]
pub enum IpReport {
    Tcp(Option<TcpReport>),
    Udp(Option<PacketInfo>),
    Icmp(Option<IcmpReport>),
    Unsupported(u8),
}

/// The size of a packet's payload, as counted.
pub open spec fn payload_size(p: &Ipv4Datagram) -> u64 {
    p.payload@.len() as u64
}

/// The size of a packet's payload.
pub fn packet_payload_size(p: &Ipv4Datagram) -> (r: u64)
    ensures
        r == payload_size(p),
        r == p.payload@.len(),
{
    p.payload.len() as u64
}

/// The name under which a protocol's traffic is counted.
pub open spec fn protocol_label(protocol: u8) -> Option<Seq<char>> {
    if protocol == 6 {
        Some("TCP"@)
    } else if protocol == 17 {
        Some("UDP"@)
    } else if protocol == 1 {
        Some("ICMP"@)
    } else {
        None
    }
}

/// Whether a payload of `len` bytes holds the header of `protocol`: 20
/// bytes for TCP, 8 for UDP, 4 for ICMP; never for another protocol.
pub open spec fn transport_header_fits(protocol: u8, len: nat) -> bool {
    if protocol == 6 {
        len >= 20
    } else if protocol == 17 {
        len >= 8
    } else if protocol == 1 {
        len >= 4
    } else {
        false
    }
}

/// Whether the payload of `p`, where its protocol's handler counts it, can
/// be counted under its protocol's name.
pub open spec fn room_for_packet(m: Seq<(Seq<char>, u64)>, p: &Ipv4Datagram) -> bool {
    match protocol_label(p.next_level_protocol) {
        Some(label) => transport_header_fits(p.next_level_protocol, p.payload@.len())
            ==> has_room(m, label, p.payload@.len()),
        None => true,
    }
}

/// The metrics after the payload of `p` was counted under its protocol's
/// name (unchanged for an unsupported protocol).
pub open spec fn metrics_after_packet(m: Seq<(Seq<char>, u64)>, p: &Ipv4Datagram) -> Seq<
    (Seq<char>, u64),
> {
    match protocol_label(p.next_level_protocol) {
        Some(label) => metrics_after_add(m, label, payload_size(p)),
        None => m,
    }
}

/// `info` reports the ends of `p` with the given ports.
pub open spec fn reports_ends(info: PacketInfo, p: &Ipv4Datagram, src_port: u16, dst_port: u16) -> bool {
    &&& info.src_ip@ == ipv4_text(p.source)
    &&& info.dst_ip@ == ipv4_text(p.destination)
    &&& info.src_port == src_port
    &&& info.dst_port == dst_port
    &&& info.payload_size == payload_size(p)
}

/// `r` is what `process_tcp_packet` reports of `p`.
pub open spec fn tcp_outcome(r: Option<TcpReport>, p: &Ipv4Datagram) -> bool {
    &&& r is Some <==> p.payload@.len() >= 20
    &&& r matches Some(rep) ==> {
        let b = p.payload@;
        &&& reports_ends(rep.info, p, be16(b, 0), be16(b, 2))
        &&& rep.sequence == be32(b, 4)
        &&& rep.acknowledgement == be32(b, 8)
        &&& rep.window == be16(b, 14)
    }
}

/// `r` is what `process_udp_packet` reports of `p`.
pub open spec fn udp_outcome(r: Option<PacketInfo>, p: &Ipv4Datagram) -> bool {
    &&& r is Some <==> p.payload@.len() >= 8
    &&& r matches Some(info) ==> reports_ends(info, p, be16(p.payload@, 0), be16(p.payload@, 2))
}

/// `r` is what `process_icmp_packet` reports of `p`.
pub open spec fn icmp_outcome(r: Option<IcmpReport>, p: &Ipv4Datagram) -> bool {
    &&& r is Some <==> p.payload@.len() >= 4
    &&& r matches Some(rep) ==> {
        &&& rep.src_ip@ == ipv4_text(p.source)
        &&& rep.dst_ip@ == ipv4_text(p.destination)
        &&& rep.payload_size == payload_size(p)
        &&& rep.icmp_type == p.payload@[0]
        &&& rep.icmp_code == p.payload@[1]
    }
}

/// `r` is what `process_ip_packet` reports of `p`.
pub open spec fn ip_outcome(r: IpReport, p: &Ipv4Datagram) -> bool {
    if p.next_level_protocol == 6 {
        r matches IpReport::Tcp(x) && tcp_outcome(x, p)
    } else if p.next_level_protocol == 17 {
        r matches IpReport::Udp(x) && udp_outcome(x, p)
    } else if p.next_level_protocol == 1 {
        r matches IpReport::Icmp(x) && icmp_outcome(x, p)
    } else {
        r == IpReport::Unsupported(p.next_level_protocol)
    }
}

/// Whether the report counted the packet in the metrics.
pub open spec fn counted(r: IpReport) -> bool {
    match r {
        IpReport::Tcp(x) => x is Some,
        IpReport::Udp(x) => x is Some,
        IpReport::Icmp(x) => x is Some,
        IpReport::Unsupported(_) => false,
    }
}

/// The ends that a UDP report gives are those of its packet: the source
/// address in dotted decimal as `src_ip` and the destination's as
/// `dst_ip` (never the other way round), the first two big-endian 16-bit
/// numbers of the datagram as source and destination port, and the size
/// of the payload.
pub proof fn lemma_udp_report_ends(r: Option<PacketInfo>, p: &Ipv4Datagram)
    requires
        udp_outcome(r, p),
        r is Some,
    ensures
        r->0.src_ip@ == ipv4_text(p.source),
        r->0.dst_ip@ == ipv4_text(p.destination),
        r->0.src_port == p.payload@[0] as nat * 256 + p.payload@[1] as nat,
        r->0.dst_port == p.payload@[2] as nat * 256 + p.payload@[3] as nat,
        r->0.payload_size == payload_size(p),
{
}

/// Read from the bytes of the IPv4 packet, a UDP report's `src_ip` is the
/// header's bytes 12 to 15 in dotted decimal and its `dst_ip` bytes 16 to
/// 19.
pub proof fn lemma_udp_report_addresses(b: Seq<u8>, d: Ipv4Datagram, r: Option<PacketInfo>)
    requires
        b.len() >= 20,
        ipv4_fields(b, d),
        udp_outcome(r, &d),
        r is Some,
    ensures
        r->0.src_ip@ == dotted_octets(b[12], b[13], b[14], b[15]),
        r->0.dst_ip@ == dotted_octets(b[16], b[17], b[18], b[19]),
{
    lemma_be32_octets(b, 12);
    lemma_be32_octets(b, 16);
    lemma_address_octets(b[12], b[13], b[14], b[15]);
    lemma_address_octets(b[16], b[17], b[18], b[19]);
}

/// What a TCP report gives, read from the segment's bytes: the source
/// address in dotted decimal as `src_ip` and the destination's as
/// `dst_ip`, the big-endian numbers at bytes 0 and 2 as the ports, at
/// bytes 4 and 8 as sequence and acknowledgement numbers, at byte 14 as
/// the window, and the size of the payload.
pub proof fn lemma_tcp_report_fields(r: Option<TcpReport>, p: &Ipv4Datagram)
    requires
        tcp_outcome(r, p),
        r is Some,
    ensures
        ({
            let b = p.payload@;
            let rep = r->0;
            &&& rep.info.src_ip@ == ipv4_text(p.source)
            &&& rep.info.dst_ip@ == ipv4_text(p.destination)
            &&& rep.info.src_port == b[0] as nat * 256 + b[1] as nat
            &&& rep.info.dst_port == b[2] as nat * 256 + b[3] as nat
            &&& rep.sequence == b[4] as nat * 16777216 + b[5] as nat * 65536 + b[6] as nat * 256
                + b[7] as nat
            &&& rep.acknowledgement == b[8] as nat * 16777216 + b[9] as nat * 65536 + b[10] as nat
                * 256 + b[11] as nat
            &&& rep.window == b[14] as nat * 256 + b[15] as nat
            &&& rep.info.payload_size == payload_size(p)
        }),
{
}

/// A TCP and a UDP report of one packet give the same ends: the same
/// addresses, ports and payload size.
pub proof fn lemma_tcp_and_udp_agree_on_ends(t: Option<TcpReport>, u: Option<PacketInfo>, p: &Ipv4Datagram)
    requires
        tcp_outcome(t, p),
        udp_outcome(u, p),
        t is Some,
        u is Some,
    ensures
        u->0.src_ip@ == t->0.info.src_ip@,
        u->0.dst_ip@ == t->0.info.dst_ip@,
        u->0.src_port == t->0.info.src_port,
        u->0.dst_port == t->0.info.dst_port,
        u->0.payload_size == t->0.info.payload_size,
{
}

/// The type and the code that an ICMP report gives are the first and the
/// second byte of the ICMP header (never the other way round), and its
/// ends are those of the packet, as in the other reports.
pub proof fn lemma_icmp_report_fields(r: Option<IcmpReport>, p: &Ipv4Datagram)
    requires
        icmp_outcome(r, p),
        r is Some,
    ensures
        r->0.icmp_type == p.payload@[0],
        r->0.icmp_code == p.payload@[1],
        r->0.src_ip@ == ipv4_text(p.source),
        r->0.dst_ip@ == ipv4_text(p.destination),
        r->0.payload_size == payload_size(p),
{
}

/// Read from the bytes of an IPv4 packet with a 20-byte header, an ICMP
/// report's type is byte 20 and its code byte 21.
pub proof fn lemma_icmp_report_from_bytes(b: Seq<u8>, d: Ipv4Datagram, r: Option<IcmpReport>)
    requires
        b.len() >= 20,
        b[0] % 16 <= 5,
        ipv4_fields(b, d),
        icmp_outcome(r, &d),
        r is Some,
    ensures
        r->0.icmp_type == b[20],
        r->0.icmp_code == b[21],
{
    assert(d.payload@[0] == b[20]);
    assert(d.payload@[1] == b[21]);
}

/// Reads the TCP header of an IPv4 packet and counts its payload under
/// "TCP"; `None`, and nothing counted, where the payload holds no header.
pub fn process_tcp_packet(ipv4_packet: &Ipv4Datagram, metrics: &mut TrafficMetrics) -> (r: Option<
    TcpReport,
>)
    requires
        old(metrics).wf(),
        ipv4_packet.payload@.len() >= 20 ==> has_room(
            old(metrics)@,
            "TCP"@,
            ipv4_packet.payload@.len(),
        ),
    ensures
        final(metrics).wf(),
        tcp_outcome(r, ipv4_packet),
        r is Some ==> final(metrics)@ == metrics_after_add(
            old(metrics)@,
            "TCP"@,
            payload_size(ipv4_packet),
        ),
        r is None ==> final(metrics)@ == old(metrics)@,
{
    match TcpSegment::parse(ipv4_packet.payload.as_slice()) {
        Some(tcp) => {
            let size = packet_payload_size(ipv4_packet);
            let info = PacketInfo {
                src_ip: format_ipv4(ipv4_packet.source),
                dst_ip: format_ipv4(ipv4_packet.destination),
                src_port: tcp.source,
                dst_port: tcp.destination,
                payload_size: size,
            };
            metrics.add_data("TCP", size);
            Some(
                TcpReport {
                    info,
                    sequence: tcp.sequence,
                    acknowledgement: tcp.acknowledgement,
                    window: tcp.window,
                },
            )
        },
        None => None,
    }
}

/// Reads the UDP header of an IPv4 packet and counts its payload under
/// "UDP"; `None`, and nothing counted, where the payload holds no header.
pub fn process_udp_packet(ipv4_packet: &Ipv4Datagram, metrics: &mut TrafficMetrics) -> (r: Option<
    PacketInfo,
>)
    requires
        old(metrics).wf(),
        ipv4_packet.payload@.len() >= 8 ==> has_room(
            old(metrics)@,
            "UDP"@,
            ipv4_packet.payload@.len(),
        ),
    ensures
        final(metrics).wf(),
        udp_outcome(r, ipv4_packet),
        r is Some ==> final(metrics)@ == metrics_after_add(
            old(metrics)@,
            "UDP"@,
            payload_size(ipv4_packet),
        ),
        r is None ==> final(metrics)@ == old(metrics)@,
{
    match UdpHeader::parse(ipv4_packet.payload.as_slice()) {
        Some(udp) => {
            let size = packet_payload_size(ipv4_packet);
            let info = PacketInfo {
                src_ip: format_ipv4(ipv4_packet.source),
                dst_ip: format_ipv4(ipv4_packet.destination),
                src_port: udp.source,
                dst_port: udp.destination,
                payload_size: size,
            };
            metrics.add_data("UDP", size);
            Some(info)
        },
        None => None,
    }
}

/// Reads the ICMP header of an IPv4 packet and counts its payload under
/// "ICMP"; `None`, and nothing counted, where the payload holds no header.
pub fn process_icmp_packet(ipv4_packet: &Ipv4Datagram, metrics: &mut TrafficMetrics) -> (r: Option<
    IcmpReport,
>)
    requires
        old(metrics).wf(),
        ipv4_packet.payload@.len() >= 4 ==> has_room(
            old(metrics)@,
            "ICMP"@,
            ipv4_packet.payload@.len(),
        ),
    ensures
        final(metrics).wf(),
        icmp_outcome(r, ipv4_packet),
        r is Some ==> final(metrics)@ == metrics_after_add(
            old(metrics)@,
            "ICMP"@,
            payload_size(ipv4_packet),
        ),
        r is None ==> final(metrics)@ == old(metrics)@,
{
    match IcmpHeader::parse(ipv4_packet.payload.as_slice()) {
        Some(icmp) => {
            let size = packet_payload_size(ipv4_packet);
            metrics.add_data("ICMP", size);
            Some(
                IcmpReport {
                    src_ip: format_ipv4(ipv4_packet.source),
                    dst_ip: format_ipv4(ipv4_packet.destination),
                    payload_size: size,
                    icmp_type: icmp.icmp_type,
                    icmp_code: icmp.icmp_code,
                },
            )
        },
        None => None,
    }
}

/// Whether the payload of `packet` can be counted under its protocol's
/// name: what `process_ip_packet` asks of the metrics.
pub fn room_for_ip_packet(packet: &Ipv4Datagram, metrics: &TrafficMetrics) -> (r: bool)
    requires
        metrics.wf(),
    ensures
        r == room_for_packet(metrics@, packet),
{
    let n = packet_payload_size(packet);
    if packet.next_level_protocol == IP_PROTOCOL_TCP {
        n < 20 || metrics.can_add("TCP", n)
    } else if packet.next_level_protocol == IP_PROTOCOL_UDP {
        n < 8 || metrics.can_add("UDP", n)
    } else if packet.next_level_protocol == IP_PROTOCOL_ICMP {
        n < 4 || metrics.can_add("ICMP", n)
    } else {
        true
    }
}

/// Hands an IPv4 packet to the handler of its protocol: TCP, UDP or ICMP;
/// any other protocol is reported as unsupported and counts nothing.
pub fn process_ip_packet(packet: &Ipv4Datagram, metrics: &mut TrafficMetrics) -> (r: IpReport)
    requires
        old(metrics).wf(),
        room_for_packet(old(metrics)@, packet),
    ensures
        final(metrics).wf(),
        ip_outcome(r, packet),
        counted(r) <==> transport_header_fits(packet.next_level_protocol, packet.payload@.len()),
        counted(r) ==> final(metrics)@ == metrics_after_packet(old(metrics)@, packet),
        !counted(r) ==> final(metrics)@ == old(metrics)@,
{
    if packet.next_level_protocol == IP_PROTOCOL_TCP {
        IpReport::Tcp(process_tcp_packet(packet, metrics))
    } else if packet.next_level_protocol == IP_PROTOCOL_UDP {
        IpReport::Udp(process_udp_packet(packet, metrics))
    } else if packet.next_level_protocol == IP_PROTOCOL_ICMP {
        IpReport::Icmp(process_icmp_packet(packet, metrics))
    } else {
        IpReport::Unsupported(packet.next_level_protocol)
    }
}

} // verus!
