//! Captured Ethernet frames: what becomes of each one.
use vstd::prelude::*;
use crate::listener::metrics::{
    TrafficMetrics,
    has_room,
    lemma_add_data_totals,
    metrics_after_add,
};
use crate::listener::packets::{
    ETHERTYPE_IPV4,
    EthernetFrame,
    Ipv4Datagram,
    ipv4_fields,
    ipv4_payload,
};
use crate::listener::protocols::{
    IpReport,
    counted,
    ip_outcome,
    metrics_after_packet,
    packet_payload_size,
    payload_size,
    process_ip_packet,
    protocol_label,
    room_for_packet,
    transport_header_fits,
};

verus! {

/// What became of a captured frame.
#[derive(Debug, Clone, PartialEq)]
pub enum FrameReport {
    /// An IPv4 packet, handed to the handler of its protocol.
    Ip(IpReport),
    /// An IPv4 frame too short for an IPv4 header.
    MalformedIpv4,
    /// A frame of another ethertype.
    UnsupportedEtherType(u16),
}

/// Whether the IPv4 packet in `bytes`, where there is one, can be counted
/// under its protocol's name `counted_times` times where its transport
/// header fits and `uncounted_times` times where it does not.
pub open spec fn room_for_ipv4_bytes(
    m: Seq<(Seq<char>, u64)>,
    bytes: Seq<u8>,
    counted_times: nat,
    uncounted_times: nat,
) -> bool {
    bytes.len() >= 20 ==> match protocol_label(bytes[9]) {
        Some(label) => {
            let n = ipv4_payload(bytes).len();
            has_room(
                m,
                label,
                (if transport_header_fits(bytes[9], n) {
                    counted_times
                } else {
                    uncounted_times
                }) * n,
            )
        },
        None => true,
    }
}

/// Whether the IPv4 packet in `bytes` can be counted as
/// `room_for_ipv4_bytes` says.
pub fn room_for_ipv4_payload(
    bytes: &[u8],
    metrics: &TrafficMetrics,
    counted_times: u64,
    uncounted_times: u64,
) -> (r: bool)
    requires
        metrics.wf(),
    ensures
        r == room_for_ipv4_bytes(
            metrics@,
            bytes@,
            counted_times as nat,
            uncounted_times as nat,
        ),
{
    match Ipv4Datagram::parse(bytes) {
        Some(d) => {
            let p = d.next_level_protocol;
            if p == 6 || p == 17 || p == 1 {
                let label = if p == 6 {
                    "TCP"
                } else if p == 17 {
                    "UDP"
                } else {
                    "ICMP"
                };
                assert(label@ == protocol_label(p)->0);
                let n = packet_payload_size(&d);
                let fits = (p == 6 && n >= 20) || (p == 17 && n >= 8) || (p == 1 && n >= 4);
                let times = if fits {
                    counted_times
                } else {
                    uncounted_times
                };
                let total = metrics.total(label);
                assert((times as u128) * (n as u128) <= 0xffff_ffff_ffff_ffffu128
                    * 0xffff_ffff_ffff_ffffu128) by (nonlinear_arith)
                    requires
                        times <= 0xffff_ffff_ffff_ffffu64,
                        n <= 0xffff_ffff_ffff_ffffu64,
                ;
                let need: u128 = (times as u128) * (n as u128);
                need <= (u64::MAX - total) as u128
            } else {
                true
            }
        },
        None => true,
    }
}

/// Whether `process_packet` may be given the frame: room for the count of
/// its IPv4 packet, where it is an IPv4 frame.
pub fn room_for_frame(frame: &EthernetFrame, metrics: &TrafficMetrics) -> (r: bool)
    requires
        metrics.wf(),
    ensures
        r == (frame.ethertype == 0x0800 ==> room_for_ipv4_bytes(metrics@, frame.payload@, 1, 0)),
{
    frame.ethertype != ETHERTYPE_IPV4 || room_for_ipv4_payload(frame.payload.as_slice(), metrics, 1, 0)
}

/// Whether `process_captured_frame` may be given the frame: room for three
/// counts of its IPv4 packet where the transport header fits, else one.
pub fn room_for_captured_frame(frame: &EthernetFrame, metrics: &TrafficMetrics) -> (r: bool)
    requires
        metrics.wf(),
    ensures
        r == room_for_ipv4_bytes(metrics@, frame.payload@, 3, 1),
{
    room_for_ipv4_payload(frame.payload.as_slice(), metrics, 3, 1)
}

/// Hands the IPv4 packet of an Ethernet frame to the handler of its
/// protocol; other ethertypes, and IPv4 frames too short for a header,
/// count nothing.
pub fn process_packet(frame: &EthernetFrame, metrics: &mut TrafficMetrics) -> (r: FrameReport)
    requires
        old(metrics).wf(),
        frame.ethertype == 0x0800 ==> room_for_ipv4_bytes(old(metrics)@, frame.payload@, 1, 0),
    ensures
        final(metrics).wf(),
        frame.ethertype != 0x0800 ==> r == FrameReport::UnsupportedEtherType(frame.ethertype)
            && final(metrics)@ == old(metrics)@,
        frame.ethertype == 0x0800 && frame.payload@.len() < 20 ==> r is MalformedIpv4
            && final(metrics)@ == old(metrics)@,
        frame.ethertype == 0x0800 && frame.payload@.len() >= 20 ==> r is Ip,
        r matches FrameReport::Ip(rep) ==> exists|d: Ipv4Datagram|
            {
                &&& #[trigger] ipv4_fields(frame.payload@, d)
                &&& ip_outcome(rep, &d)
                &&& counted(rep) ==> final(metrics)@ == metrics_after_packet(old(metrics)@, &d)
                &&& !counted(rep) ==> final(metrics)@ == old(metrics)@
            },
{
    if frame.ethertype == ETHERTYPE_IPV4 {
        match Ipv4Datagram::parse(frame.payload.as_slice()) {
            Some(ipv4_packet) => {
                assert(ipv4_fields(frame.payload@, ipv4_packet));
                assert(1 * ipv4_packet.payload@.len() == ipv4_packet.payload@.len());
                assert(room_for_packet(old(metrics)@, &ipv4_packet));
                let rep = process_ip_packet(&ipv4_packet, metrics);
                FrameReport::Ip(rep)
            },
            None => FrameReport::MalformedIpv4,
        }
    } else {
        FrameReport::UnsupportedEtherType(frame.ethertype)
    }
}

/// The metrics after a packet's payload was counted `k` times under its
/// protocol's name.
pub open spec fn metrics_after_packet_times(
    m: Seq<(Seq<char>, u64)>,
    p: &Ipv4Datagram,
    k: nat,
) -> Seq<(Seq<char>, u64)>
    decreases k,
{
    if k == 0 {
        m
    } else {
        metrics_after_packet(metrics_after_packet_times(m, p, (k - 1) as nat), p)
    }
}

/// Counts the payload of `d` once more under `label`, then hands `d` to
/// the handler of its protocol a second time.
fn count_and_process_again(
    d: &Ipv4Datagram,
    metrics: &mut TrafficMetrics,
    label: &str,
    Ghost(first): Ghost<IpReport>,
) -> (second: IpReport)
    requires
        old(metrics).wf(),
        protocol_label(d.next_level_protocol) == Some(label@),
        ip_outcome(first, d),
        has_room(old(metrics)@, label@, d.payload@.len()),
        transport_header_fits(d.next_level_protocol, d.payload@.len()) ==> has_room(
            old(metrics)@,
            label@,
            2 * d.payload@.len(),
        ),
    ensures
        final(metrics).wf(),
        ip_outcome(second, d),
        final(metrics)@ == if counted(first) {
            metrics_after_packet(metrics_after_packet(old(metrics)@, d), d)
        } else {
            metrics_after_packet(old(metrics)@, d)
        },
{
    let ghost n = d.payload@.len();
    proof {
        lemma_add_data_totals(old(metrics)@, label@, n as u64, label@);
    }
    let size = packet_payload_size(d);
    metrics.add_data(label, size);
    let second = process_ip_packet(d, metrics);
    assert(counted(second) == counted(first));
    second
}

/// Handles a frame the way the capture loop does: the IPv4 packet it holds
/// (where it holds one; the ethertype is not looked at) goes to the handler
/// of its protocol, its payload is counted once more under the protocol's
/// name, and it goes to the handler a second time. Both reports come back;
/// `None` where the frame holds no IPv4 header.
pub fn process_captured_frame(frame: &EthernetFrame, metrics: &mut TrafficMetrics) -> (r: Option<
    (IpReport, IpReport),
>)
    requires
        old(metrics).wf(),
        room_for_ipv4_bytes(old(metrics)@, frame.payload@, 3, 1),
    ensures
        final(metrics).wf(),
        r is Some <==> frame.payload@.len() >= 20,
        r is None ==> final(metrics)@ == old(metrics)@,
        r matches Some((first, second)) ==> exists|d: Ipv4Datagram|
            {
                &&& #[trigger] ipv4_fields(frame.payload@, d)
                &&& ip_outcome(first, &d)
                &&& ip_outcome(second, &d)
                &&& final(metrics)@ == metrics_after_packet_times(
                    old(metrics)@,
                    &d,
                    if counted(first) {
                        3
                    } else {
                        1
                    },
                )
            },
{
    match Ipv4Datagram::parse(frame.payload.as_slice()) {
        Some(ipv4_packet) => {
            let ghost m0 = metrics@;
            assert(ipv4_fields(frame.payload@, ipv4_packet));
            let ghost n = ipv4_packet.payload@.len();
            let p = ipv4_packet.next_level_protocol;
            if p == 6 || p == 17 || p == 1 {
                let label = if p == 6 {
                    "TCP"
                } else if p == 17 {
                    "UDP"
                } else {
                    "ICMP"
                };
                let ghost lab = protocol_label(p)->0;
                assert(label@ == lab);
                let ghost fits = transport_header_fits(p, n);
                assert(fits ==> has_room(m0, lab, 3 * n));
                assert(!fits ==> has_room(m0, lab, 1 * n));
                proof {
                    if fits {
                        lemma_add_data_totals(m0, lab, n as u64, lab);
                    }
                }
                let first = process_ip_packet(&ipv4_packet, metrics);
                let ghost m1 = metrics@;
                assert(has_room(m1, lab, n));
                assert(fits ==> has_room(m1, lab, 2 * n));
                let second = count_and_process_again(&ipv4_packet, metrics, label, Ghost(first));
                proof {
                    let d = ipv4_packet;
                    assert(metrics_after_packet_times(m0, &d, 0) == m0);
                    if counted(first) {
                        assert(metrics_after_packet_times(m0, &d, 1) == m1);
                        assert(metrics_after_packet_times(m0, &d, 2) == metrics_after_packet(m1, &d));
                        assert(metrics_after_packet_times(m0, &d, 3) == metrics@);
                    } else {
                        assert(metrics_after_packet_times(m0, &d, 0) == m1);
                        assert(metrics_after_packet_times(m0, &d, 1) == metrics@);
                    }
                }
                Some((first, second))
            } else {
                let first = process_ip_packet(&ipv4_packet, metrics);
                let second = process_ip_packet(&ipv4_packet, metrics);
                assert(metrics_after_packet_times(m0, &ipv4_packet, 0) == m0);
                assert(metrics_after_packet_times(m0, &ipv4_packet, 1) == m0);
                Some((first, second))
            }
        },
        None => None,
    }
}

} // verus!
