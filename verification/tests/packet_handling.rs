use packet_proxy::listener::capture::{
    process_captured_frame, process_packet, room_for_captured_frame, room_for_frame, FrameReport,
};
use packet_proxy::listener::metrics::TrafficMetrics;
use packet_proxy::listener::packets::{
    format_ipv4, EthernetFrame, IcmpHeader, Ipv4Datagram, TcpSegment, UdpHeader,
};
use packet_proxy::listener::protocols::{
    process_icmp_packet, process_ip_packet, process_tcp_packet, process_udp_packet,
    room_for_ip_packet, IpReport,
};
use packet_proxy::listener::raw_sockets::{process_raw_tcp_packet, process_raw_udp_packet};

fn ipv4_bytes(protocol: u8, src: [u8; 4], dst: [u8; 4], payload: &[u8]) -> Vec<u8> {
    let total = (20 + payload.len()) as u16;
    let mut b = vec![0x45, 0, (total >> 8) as u8, total as u8, 0, 1, 0x40, 0, 64, protocol, 0, 0];
    b.extend_from_slice(&src);
    b.extend_from_slice(&dst);
    b.extend_from_slice(payload);
    b
}

fn tcp_segment(payload_len: usize) -> Vec<u8> {
    let mut t = vec![
        0x12, 0x34, 0x00, 0x50, 0xde, 0xad, 0xbe, 0xef, 0x01, 0x02, 0x03, 0x04, 0x50, 0x18, 0x01,
        0x02, 0, 0, 0, 0,
    ];
    t.extend(std::iter::repeat(7u8).take(payload_len));
    t
}

fn ethernet(ethertype: u16, payload: &[u8]) -> Vec<u8> {
    let mut f = vec![1, 2, 3, 4, 5, 6, 7, 8, 9, 10, 11, 12, (ethertype >> 8) as u8, ethertype as u8];
    f.extend_from_slice(payload);
    f
}

#[test]
fn ipv4_fields_are_read() {
    let bytes = ipv4_bytes(6, [192, 168, 0, 10], [8, 8, 4, 4], &[1, 2, 3]);
    let d = Ipv4Datagram::parse(&bytes).unwrap();
    assert_eq!(d.header_length, 5);
    assert_eq!(d.total_length, 23);
    assert_eq!(d.next_level_protocol, 6);
    assert_eq!(d.source, 0xc0a8000a);
    assert_eq!(d.destination, 0x08080404);
    assert_eq!(d.payload, vec![1, 2, 3]);
    assert!(Ipv4Datagram::parse(&bytes[..19]).is_none());
}

#[test]
fn ipv4_payload_follows_total_length() {
    let mut bytes = ipv4_bytes(17, [1, 1, 1, 1], [2, 2, 2, 2], &[9, 9, 9, 9]);
    // total length says two bytes of payload; the rest of the buffer is padding
    bytes[3] = 22;
    assert_eq!(Ipv4Datagram::parse(&bytes).unwrap().payload, vec![9, 9]);
    // a total length past the buffer is cut at the buffer's end
    bytes[3] = 200;
    assert_eq!(Ipv4Datagram::parse(&bytes).unwrap().payload, vec![9, 9, 9, 9]);
    // a header of 24 bytes skips four bytes of options
    bytes[0] = 0x46;
    bytes[3] = 24;
    assert_eq!(Ipv4Datagram::parse(&bytes).unwrap().payload, Vec::<u8>::new());
}

#[test]
fn transport_headers_are_read() {
    let t = TcpSegment::parse(&tcp_segment(0)).unwrap();
    assert_eq!((t.source, t.destination), (0x1234, 80));
    assert_eq!(t.sequence, 0xdeadbeef);
    assert_eq!(t.acknowledgement, 0x01020304);
    assert_eq!(t.window, 0x0102);
    assert!(TcpSegment::parse(&[0; 19]).is_none());
    let u = UdpHeader::parse(&[0, 53, 0x10, 0x00, 0, 8, 0, 0]).unwrap();
    assert_eq!((u.source, u.destination), (53, 4096));
    assert!(UdpHeader::parse(&[0; 7]).is_none());
    let i = IcmpHeader::parse(&[8, 0, 0xff, 0xff]).unwrap();
    assert_eq!((i.icmp_type, i.icmp_code), (8, 0));
    assert!(IcmpHeader::parse(&[8, 0, 0]).is_none());
    let e = EthernetFrame::parse(&ethernet(0x0800, &[1, 2])).unwrap();
    assert_eq!(e.ethertype, 0x0800);
    assert_eq!(e.payload, vec![1, 2]);
    assert!(EthernetFrame::parse(&[0; 13]).is_none());
}

#[test]
fn addresses_in_dotted_decimal() {
    assert_eq!(format_ipv4(0), "0.0.0.0");
    assert_eq!(format_ipv4(0xc0a8000a), "192.168.0.10");
    assert_eq!(format_ipv4(u32::MAX), "255.255.255.255");
    assert_eq!(format_ipv4(0x0a000001), "10.0.0.1");
}

#[test]
fn tcp_packet_is_reported_and_counted() {
    let bytes = ipv4_bytes(6, [10, 0, 0, 1], [93, 184, 216, 34], &tcp_segment(12));
    let d = Ipv4Datagram::parse(&bytes).unwrap();
    let mut m = TrafficMetrics::new();
    let rep = process_tcp_packet(&d, &mut m).unwrap();
    assert_eq!(rep.info.src_ip, "10.0.0.1");
    assert_eq!(rep.info.dst_ip, "93.184.216.34");
    assert_eq!((rep.info.src_port, rep.info.dst_port), (0x1234, 80));
    assert_eq!(rep.info.payload_size, 32);
    assert_eq!(rep.sequence, 0xdeadbeef);
    assert_eq!(rep.acknowledgement, 0x01020304);
    assert_eq!(rep.window, 0x0102);
    assert_eq!(m.total("TCP"), 32);
}

#[test]
fn short_payload_is_not_counted() {
    let bytes = ipv4_bytes(6, [10, 0, 0, 1], [10, 0, 0, 2], &[1, 2, 3]);
    let d = Ipv4Datagram::parse(&bytes).unwrap();
    let mut m = TrafficMetrics::new();
    assert!(process_tcp_packet(&d, &mut m).is_none());
    assert!(process_icmp_packet(&d, &mut m).is_none());
    assert_eq!(m.formatted(), "");
}

#[test]
fn udp_and_icmp_packets() {
    let bytes = ipv4_bytes(17, [1, 2, 3, 4], [5, 6, 7, 8], &[0, 53, 0, 54, 0, 8, 0, 0, 1, 2]);
    let d = Ipv4Datagram::parse(&bytes).unwrap();
    let mut m = TrafficMetrics::new();
    let info = process_udp_packet(&d, &mut m).unwrap();
    assert_eq!((info.src_port, info.dst_port, info.payload_size), (53, 54, 10));
    let bytes = ipv4_bytes(1, [1, 2, 3, 4], [5, 6, 7, 8], &[0, 0, 0x12, 0x34, 9, 9]);
    let d = Ipv4Datagram::parse(&bytes).unwrap();
    let rep = process_icmp_packet(&d, &mut m).unwrap();
    assert_eq!((rep.icmp_type, rep.icmp_code, rep.payload_size), (0, 0, 6));
    assert_eq!(rep.src_ip, "1.2.3.4");
    assert_eq!(m.formatted(), "UDP: 10.00 Bytes, ICMP: 6.00 Bytes");
}

#[test]
fn dispatch_by_protocol() {
    let mut m = TrafficMetrics::new();
    let bytes = ipv4_bytes(6, [1, 1, 1, 1], [2, 2, 2, 2], &tcp_segment(0));
    let d = Ipv4Datagram::parse(&bytes).unwrap();
    assert!(matches!(process_ip_packet(&d, &mut m), IpReport::Tcp(Some(_))));
    let bytes = ipv4_bytes(47, [1, 1, 1, 1], [2, 2, 2, 2], &[0; 30]);
    let d = Ipv4Datagram::parse(&bytes).unwrap();
    assert_eq!(process_ip_packet(&d, &mut m), IpReport::Unsupported(47));
    assert_eq!(m.formatted(), "TCP: 20.00 Bytes");
}

#[test]
fn raw_packets_count_their_whole_size() {
    let mut m = TrafficMetrics::new();
    let rep = process_raw_tcp_packet(&tcp_segment(5), &mut m).unwrap();
    assert_eq!((rep.src_port, rep.dest_port, rep.size), (0x1234, 80, 25));
    let rep = process_raw_udp_packet(&[0, 1, 0, 2, 0, 8, 0, 0, 5], &mut m).unwrap();
    assert_eq!((rep.src_port, rep.dest_port, rep.size), (1, 2, 9));
    assert!(process_raw_udp_packet(&[0, 1], &mut m).is_none());
    assert!(process_raw_tcp_packet(&[0; 10], &mut m).is_none());
    assert_eq!(m.formatted(), "Raw TCP: 25.00 Bytes, Raw UDP: 9.00 Bytes");
}

#[test]
fn frames_by_ethertype() {
    let mut m = TrafficMetrics::new();
    let ip = ipv4_bytes(17, [1, 1, 1, 1], [2, 2, 2, 2], &[0, 1, 0, 2, 0, 8, 0, 0]);
    let f = EthernetFrame::parse(&ethernet(0x0800, &ip)).unwrap();
    assert!(matches!(process_packet(&f, &mut m), FrameReport::Ip(IpReport::Udp(Some(_)))));
    let f = EthernetFrame::parse(&ethernet(0x86dd, &ip)).unwrap();
    assert_eq!(process_packet(&f, &mut m), FrameReport::UnsupportedEtherType(0x86dd));
    let f = EthernetFrame::parse(&ethernet(0x0800, &[0x45, 0])).unwrap();
    assert_eq!(process_packet(&f, &mut m), FrameReport::MalformedIpv4);
    assert_eq!(m.total("UDP"), 8);
}

#[test]
fn captured_frame_counts_three_times() {
    let mut m = TrafficMetrics::new();
    let ip = ipv4_bytes(6, [1, 1, 1, 1], [2, 2, 2, 2], &tcp_segment(4));
    let f = EthernetFrame::parse(&ethernet(0x0800, &ip)).unwrap();
    let (first, second) = process_captured_frame(&f, &mut m).unwrap();
    assert_eq!(first, second);
    assert_eq!(m.total("TCP"), 72);
    // a payload too short for its header is counted once, by the loop itself
    let ip = ipv4_bytes(6, [1, 1, 1, 1], [2, 2, 2, 2], &[1, 2, 3]);
    let f = EthernetFrame::parse(&ethernet(0x0800, &ip)).unwrap();
    let (first, _) = process_captured_frame(&f, &mut m).unwrap();
    assert_eq!(first, IpReport::Tcp(None));
    assert_eq!(m.total("TCP"), 75);
    let f = EthernetFrame::parse(&ethernet(0x0800, &[1, 2, 3])).unwrap();
    assert!(process_captured_frame(&f, &mut m).is_none());
}

fn nearly_full(label: &str, left: u64) -> TrafficMetrics {
    let mut m = TrafficMetrics::new();
    m.add_data(label, u64::MAX - left);
    m
}

#[test]
fn short_payload_needs_no_room() {
    let bytes = ipv4_bytes(6, [1, 1, 1, 1], [2, 2, 2, 2], &[0; 18]);
    let d = Ipv4Datagram::parse(&bytes).unwrap();
    let mut m = nearly_full("TCP", 15);
    assert!(room_for_ip_packet(&d, &m));
    assert_eq!(process_ip_packet(&d, &mut m), IpReport::Tcp(None));
    assert_eq!(m.total("TCP"), u64::MAX - 15);
    let mut m = nearly_full("Raw TCP", 3);
    assert!(process_raw_tcp_packet(&[0; 19], &mut m).is_none());
    assert_eq!(m.total("Raw TCP"), u64::MAX - 3);
    let mut m = nearly_full("Raw UDP", 3);
    assert!(process_raw_udp_packet(&[0; 7], &mut m).is_none());
    assert_eq!(m.total("Raw UDP"), u64::MAX - 3);
    // a full packet does need the room
    let bytes = ipv4_bytes(6, [1, 1, 1, 1], [2, 2, 2, 2], &tcp_segment(0));
    let d = Ipv4Datagram::parse(&bytes).unwrap();
    assert!(!room_for_ip_packet(&d, &m_with("TCP", 15)));
}

fn m_with(label: &str, left: u64) -> TrafficMetrics {
    nearly_full(label, left)
}

#[test]
fn other_frames_need_no_room() {
    let ip = ipv4_bytes(6, [1, 1, 1, 1], [2, 2, 2, 2], &tcp_segment(0));
    let other = EthernetFrame::parse(&ethernet(0x86dd, &ip)).unwrap();
    let mut m = nearly_full("TCP", 5);
    assert!(room_for_frame(&other, &m));
    assert_eq!(process_packet(&other, &mut m), FrameReport::UnsupportedEtherType(0x86dd));
    assert_eq!(m.total("TCP"), u64::MAX - 5);
    let ipv4 = EthernetFrame::parse(&ethernet(0x0800, &ip)).unwrap();
    assert!(!room_for_frame(&ipv4, &m));
    // a captured frame whose transport header does not fit is counted once
    let short = ipv4_bytes(6, [1, 1, 1, 1], [2, 2, 2, 2], &[0; 10]);
    let f = EthernetFrame::parse(&ethernet(0x0800, &short)).unwrap();
    let mut m = nearly_full("TCP", 10);
    assert!(room_for_captured_frame(&f, &m));
    let (first, second) = process_captured_frame(&f, &mut m).unwrap();
    assert_eq!((first, second), (IpReport::Tcp(None), IpReport::Tcp(None)));
    assert_eq!(m.total("TCP"), u64::MAX);
    // a counted one needs three times its payload
    let f = EthernetFrame::parse(&ethernet(0x0800, &ip)).unwrap();
    assert!(room_for_captured_frame(&f, &nearly_full("TCP", 60)));
    assert!(!room_for_captured_frame(&f, &nearly_full("TCP", 59)));
}
