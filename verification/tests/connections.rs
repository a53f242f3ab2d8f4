use packet_proxy::listener::connection_manager::{is_private, ConnectionManager};
use packet_proxy::listener::metrics::TrafficMetrics;
use packet_proxy::listener::timeout::{check_timeout, TimeSpan};
use packet_proxy::listener::types::{ConnectionIdentifier, ConnectionState, SocketAddress};

fn id(src: u32, sport: u16, dst: u32, dport: u16) -> ConnectionIdentifier {
    ConnectionIdentifier {
        protocol: 6,
        source: SocketAddress { ip: src, port: sport },
        destination: SocketAddress { ip: dst, port: dport },
    }
}

#[test]
fn timeout_compares_durations() {
    assert!(check_timeout(TimeSpan::new(31, 0), TimeSpan::new(30, 0)));
    assert!(!check_timeout(TimeSpan::new(30, 0), TimeSpan::new(30, 0)));
    assert!(check_timeout(TimeSpan::new(30, 1), TimeSpan::new(30, 0)));
    assert!(!check_timeout(TimeSpan::new(29, 999_999_999), TimeSpan::new(30, 0)));
}

#[test]
fn private_addresses() {
    for (ip, private) in [
        (0x0a000001u32, true),
        (0xac100001, true),
        (0xac1fffff, true),
        (0xac200000, false),
        (0xc0a80101, true),
        (0xc0a90101, false),
        (0x08080808, false),
    ] {
        assert_eq!(is_private(ip), private);
    }
}

#[test]
fn packets_update_their_connection() {
    let mut cm = ConnectionManager::new(TimeSpan::new(60, 0));
    let mut metrics = TrafficMetrics::new();
    let out = id(0xc0a80001, 5000, 0x08080808, 443);
    cm.update_connection(&mut metrics, 6, 0xc0a80001, 5000, 0x08080808, 443, 100, TimeSpan::new(1, 0));
    assert_eq!(cm.connection_count(), 1);
    let c = cm.connection(&out).unwrap();
    assert_eq!(c.state, ConnectionState::Established);
    assert_eq!((c.bytes_sent, c.bytes_received), (100, 0));
    assert_eq!(c.last_activity, TimeSpan::new(1, 0));

    cm.update_connection(&mut metrics, 6, 0xc0a80001, 5000, 0x08080808, 443, 50, TimeSpan::new(2, 5));
    let c = cm.connection(&out).unwrap();
    assert_eq!((c.bytes_sent, c.bytes_received), (150, 0));
    assert_eq!(c.last_activity, TimeSpan::new(2, 5));
    assert_eq!(cm.connection_count(), 1);

    // the reverse direction is another connection; its bytes are received
    cm.update_connection(&mut metrics, 6, 0x08080808, 443, 0xc0a80001, 5000, 30, TimeSpan::new(3, 0));
    let back = id(0x08080808, 443, 0xc0a80001, 5000);
    let c = cm.connection(&back).unwrap();
    assert_eq!((c.bytes_sent, c.bytes_received), (0, 30));
    assert_eq!(cm.connection_count(), 2);
    assert_eq!(metrics.total("TCP"), 180);
    assert!(cm.connection(&id(1, 2, 3, 4)).is_none());
}

#[test]
fn sequence_of_updates_keeps_byte_sums() {
    let mut cm = ConnectionManager::new(TimeSpan::new(60, 0));
    let mut metrics = TrafficMetrics::new();
    let sizes = [10usize, 0, 7, 300, 5];
    for (i, s) in sizes.iter().enumerate() {
        let (src, dst) = if i % 2 == 0 { (0x0a000001, 0x08080808) } else { (0x08080808, 0x0a000001) };
        cm.update_connection(&mut metrics, 17, src, 53, dst, 53, *s, TimeSpan::new(i as u64, 0));
    }
    let out = cm.connection(&ConnectionIdentifier {
        protocol: 17,
        source: SocketAddress { ip: 0x0a000001, port: 53 },
        destination: SocketAddress { ip: 0x08080808, port: 53 },
    }).unwrap();
    assert_eq!(out.state, ConnectionState::Established);
    assert_eq!(out.bytes_sent + out.bytes_received, 10 + 7 + 5);
    let back = cm.connection(&ConnectionIdentifier {
        protocol: 17,
        source: SocketAddress { ip: 0x08080808, port: 53 },
        destination: SocketAddress { ip: 0x0a000001, port: 53 },
    }).unwrap();
    assert_eq!(back.state, ConnectionState::Established);
    assert_eq!(back.bytes_sent + back.bytes_received, 300);
    assert_eq!(cm.connection_count(), 2);
}

#[test]
fn manager_counts_into_the_shared_metrics() {
    let mut metrics = TrafficMetrics::new();
    metrics.add_data("TCP", 40);
    let mut cm = ConnectionManager::new(TimeSpan::new(30, 0));
    cm.update_connection(&mut metrics, 6, 0x0a000002, 1, 0x01010101, 2, 60, TimeSpan::new(0, 0));
    assert_eq!(metrics.total("TCP"), 100);
    assert_eq!(metrics.formatted(), "TCP: 100.00 Bytes");
}
