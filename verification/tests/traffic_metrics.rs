use packet_proxy::listener::metrics::{format_amount, TrafficMetrics};

/// The conversion and formatting done with floats, as the metrics text is
/// meant to read.
fn float_amount(bytes: u64) -> String {
    const KB: f64 = 1024.0;
    const MB: f64 = 1024.0 * KB;
    const GB: f64 = 1024.0 * MB;
    let (value, unit) = if bytes as f64 >= GB {
        (bytes as f64 / GB, "GB")
    } else if bytes as f64 >= MB {
        (bytes as f64 / MB, "MB")
    } else if bytes as f64 >= KB {
        (bytes as f64 / KB, "KB")
    } else {
        (bytes as f64, "Bytes")
    };
    format!("{:.2} {}", value, unit)
}

#[test]
fn amounts_in_human_units() {
    assert_eq!(format_amount(0), "0.00 Bytes");
    assert_eq!(format_amount(512), "512.00 Bytes");
    assert_eq!(format_amount(1023), "1023.00 Bytes");
    assert_eq!(format_amount(1024), "1.00 KB");
    assert_eq!(format_amount(1536), "1.50 KB");
    assert_eq!(format_amount(1048576), "1.00 MB");
    assert_eq!(format_amount(3 * 1073741824), "3.00 GB");
}

#[test]
fn amounts_round_like_float_formatting() {
    let mut samples: Vec<u64> = (0..5000).collect();
    for shift in 0..64 {
        let p = 1u64 << shift;
        for d in 0..5u64 {
            samples.push(p.wrapping_add(d));
            samples.push(p.wrapping_sub(d));
        }
    }
    // ties at the second decimal
    samples.extend_from_slice(&[1152, 1024 + 640, 1024 * 3 + 384, 1048576 + 131072, 1073741824 + 134217728]);
    samples.extend_from_slice(&[
        u64::MAX,
        u64::MAX - 1,
        u64::MAX - 1024,
        (1u64 << 53) + 1,
        (1u64 << 53) + 3,
        (1u64 << 54) + 2,
        (1u64 << 54) + 6,
        (1u64 << 60) + (1u64 << 7),
    ]);
    let mut x: u64 = 0x9e3779b97f4a7c15;
    for _ in 0..20000 {
        x ^= x << 13;
        x ^= x >> 7;
        x ^= x << 17;
        samples.push(x);
        samples.push(x >> (x % 64));
    }
    for b in samples {
        assert_eq!(format_amount(b), float_amount(b), "bytes = {}", b);
    }
}

#[test]
fn add_data_accumulates_per_protocol() {
    let mut m = TrafficMetrics::new();
    assert_eq!(m.total("TCP"), 0);
    m.add_data("TCP", 100);
    m.add_data("UDP", 5);
    m.add_data("TCP", 1948);
    assert_eq!(m.total("TCP"), 2048);
    assert_eq!(m.total("UDP"), 5);
    assert_eq!(m.total("ICMP"), 0);
    assert_eq!(m.formatted(), "TCP: 2.00 KB, UDP: 5.00 Bytes");
}

#[test]
fn additivity_on_concrete_values() {
    let mut a = TrafficMetrics::default();
    a.add_data("Raw TCP", 700);
    a.add_data("Raw TCP", 324);
    let mut b = TrafficMetrics::new();
    b.add_data("Raw TCP", 1024);
    assert_eq!(a.formatted(), b.formatted());
    assert_eq!(a.formatted(), "Raw TCP: 1.00 KB");
}

#[test]
fn empty_metrics_format_empty() {
    assert_eq!(TrafficMetrics::new().formatted(), "");
}

#[test]
fn room_is_checked_before_overflow() {
    let mut m = TrafficMetrics::new();
    m.add_data("TCP", u64::MAX - 1);
    assert!(m.can_add("TCP", 1));
    assert!(!m.can_add("TCP", 2));
    assert!(m.can_add("UDP", u64::MAX));
}
