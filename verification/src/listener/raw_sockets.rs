//! Raw TCP and UDP packets, read straight from a socket buffer.
use vstd::prelude::*;
use crate::listener::metrics::{TrafficMetrics, has_room, metrics_after_add};
use crate::listener::packets::{TcpSegment, UdpHeader, be16};

verus! {

/// What is reported of a raw packet: its ports and its whole size.
#[derive(Debug, Clone, Copy, PartialEq, Eq)]
pub struct RawPacketReport {
    pub src_port: u16,
    pub dest_port: u16,
    pub size: u64,
}

/// The size of a raw packet, as counted.
pub fn packet_size(packet: &[u8]) -> (r: u64)
    ensures
        r == packet@.len(),
{
    packet.len() as u64
}

/// Reads the TCP header of a raw packet and counts the whole packet under
/// "Raw TCP"; `None`, and nothing counted, below the 20 bytes of a header.
pub fn process_raw_tcp_packet(packet: &[u8], metrics: &mut TrafficMetrics) -> (r: Option<
    RawPacketReport,
>)
    requires
        old(metrics).wf(),
        packet@.len() >= 20 ==> has_room(old(metrics)@, "Raw TCP"@, packet@.len()),
    ensures
        final(metrics).wf(),
        r is Some <==> packet@.len() >= 20,
        match r {
            Some(rep) => {
                &&& rep.src_port == be16(packet@, 0)
                &&& rep.dest_port == be16(packet@, 2)
                &&& rep.size == packet@.len()
                &&& final(metrics)@ == metrics_after_add(old(metrics)@, "Raw TCP"@, rep.size)
            },
            None => final(metrics)@ == old(metrics)@,
        },
{
    match TcpSegment::parse(packet) {
        Some(tcp) => {
            let size = packet_size(packet);
            metrics.add_data("Raw TCP", size);
            Some(RawPacketReport { src_port: tcp.source, dest_port: tcp.destination, size })
        },
        None => None,
    }
}

/// Reads the UDP header of a raw packet and counts the whole packet under
/// "Raw UDP"; `None`, and nothing counted, below the 8 bytes of a header.
pub fn process_raw_udp_packet(packet: &[u8], metrics: &mut TrafficMetrics) -> (r: Option<
    RawPacketReport,
>)
    requires
        old(metrics).wf(),
        packet@.len() >= 8 ==> has_room(old(metrics)@, "Raw UDP"@, packet@.len()),
    ensures
        final(metrics).wf(),
        r is Some <==> packet@.len() >= 8,
        match r {
            Some(rep) => {
                &&& rep.src_port == be16(packet@, 0)
                &&& rep.dest_port == be16(packet@, 2)
                &&& rep.size == packet@.len()
                &&& final(metrics)@ == metrics_after_add(old(metrics)@, "Raw UDP"@, rep.size)
            },
            None => final(metrics)@ == old(metrics)@,
        },
{
    match UdpHeader::parse(packet) {
        Some(udp) => {
            let size = packet_size(packet);
            metrics.add_data("Raw UDP", size);
            Some(RawPacketReport { src_port: udp.source, dest_port: udp.destination, size })
        },
        None => None,
    }
}

} // verus!
