//! Connection tracking: one record per connection, updated by each packet.
use vstd::prelude::*;
use crate::listener::metrics::{TrafficMetrics, has_room, metrics_after_add};
use crate::listener::packets::{address_of_octets, lemma_address_octets};
use crate::listener::timeout::TimeSpan;
use crate::listener::types::{ConnectionIdentifier, ConnectionState, SocketAddress};

verus! {

/// A tracked connection.
#[derive(Debug, Clone, Copy)]
pub struct Connection {
    pub identifier: ConnectionIdentifier,
    pub state: ConnectionState,
    pub last_activity: TimeSpan,
    pub bytes_sent: u64,
    pub bytes_received: u64,
}

/// The state after a packet: a new or any other connection becomes
/// established, a closing one closed.
pub open spec fn next_state(s: ConnectionState) -> ConnectionState {
    match s {
        ConnectionState::New => ConnectionState::Established,
        ConnectionState::Closing => ConnectionState::Closed,
        _ => ConnectionState::Established,
    }
}

/// Whether an IPv4 address is private, as `Ipv4Addr::is_private` documents
/// it: in 10.0.0.0/8, 172.16.0.0/12 or 192.168.0.0/16.
pub open spec fn is_private_ipv4(ip: u32) -> bool {
    let a = ip as nat / 16777216;
    let b = (ip as nat / 65536) % 256;
    a == 10 || (a == 172 && 16 <= b < 32) || (a == 192 && b == 168)
}

/// Whether an IPv4 address is private.
pub fn is_private(ip: u32) -> (r: bool)
    ensures
        r == is_private_ipv4(ip),
{
    let a = ip / 16777216;
    let b = (ip / 65536) % 256;
    a == 10 || (a == 172 && 16 <= b && b < 32) || (a == 192 && b == 168)
}

/// An address is private exactly when its first octet is 10
/// (10.0.0.0/8), its first two are 172 and 16 to 31 (172.16.0.0/12), or
/// 192 and 168 (192.168.0.0/16), whatever its other octets are.
pub proof fn lemma_private_addresses(a: u8, b: u8, c: u8, d: u8)
    ensures
        is_private_ipv4(address_of_octets(a, b, c, d)) <==> (a == 10 || (a == 172 && 16 <= b
            <= 31) || (a == 192 && b == 168)),
{
    lemma_address_octets(a, b, c, d);
}

/// The private addresses are exactly the three ranges 10.0.0.0 to
/// 10.255.255.255, 172.16.0.0 to 172.31.255.255 and 192.168.0.0 to
/// 192.168.255.255.
pub proof fn lemma_private_ranges(ip: u32)
    ensures
        is_private_ipv4(ip) <==> (0x0A00_0000 <= ip <= 0x0AFF_FFFF || 0xAC10_0000 <= ip
            <= 0xAC1F_FFFF || 0xC0A8_0000 <= ip <= 0xC0A8_FFFF),
{
    let a = ip / 16777216;
    let b = (ip / 65536) % 256;
    assert((a == 10 || (a == 172 && 16 <= b < 32) || (a == 192 && b == 168)) <==> (0x0A00_0000
        <= ip <= 0x0AFF_FFFF || 0xAC10_0000 <= ip <= 0xAC1F_FFFF || 0xC0A8_0000 <= ip
        <= 0xC0A8_FFFF)) by (bit_vector)
        requires
            a == ip / 16777216,
            b == (ip / 65536) % 256,
    ;
}

/// A connection after a packet of `size` bytes at `now`: the bytes count as
/// sent when `outgoing`, else as received.
pub open spec fn connection_after_packet(
    c: Connection,
    outgoing: bool,
    size: u64,
    now: TimeSpan,
) -> Connection {
    Connection {
        identifier: c.identifier,
        state: next_state(c.state),
        last_activity: now,
        bytes_sent: if outgoing {
            (c.bytes_sent + size) as u64
        } else {
            c.bytes_sent
        },
        bytes_received: if outgoing {
            c.bytes_received
        } else {
            (c.bytes_received + size) as u64
        },
    }
}

/// A connection seen for the first time at `now`.
pub open spec fn new_connection(id: ConnectionIdentifier, now: TimeSpan) -> Connection {
    Connection {
        identifier: id,
        state: ConnectionState::New,
        last_activity: now,
        bytes_sent: 0,
        bytes_received: 0,
    }
}

/// Whether some connection has identifier `id`.
pub open spec fn is_tracked(conns: Seq<Connection>, id: ConnectionIdentifier) -> bool {
    exists|i: int| 0 <= i < conns.len() && #[trigger] conns[i].identifier == id
}

/// The position of the connection with identifier `id` (where there is one).
pub open spec fn connection_index(conns: Seq<Connection>, id: ConnectionIdentifier) -> int {
    choose|i: int| 0 <= i < conns.len() && #[trigger] conns[i].identifier == id
}

/// The connection with identifier `id`, or a new one.
pub open spec fn connection_or_new(
    conns: Seq<Connection>,
    id: ConnectionIdentifier,
    now: TimeSpan,
) -> Connection {
    if is_tracked(conns, id) {
        conns[connection_index(conns, id)]
    } else {
        new_connection(id, now)
    }
}

/// The connections after a packet: the connection with identifier `id` is
/// updated in place, or a new one is added at the end.
pub open spec fn connections_after_packet(
    conns: Seq<Connection>,
    id: ConnectionIdentifier,
    outgoing: bool,
    size: u64,
    now: TimeSpan,
) -> Seq<Connection> {
    let updated = connection_after_packet(connection_or_new(conns, id, now), outgoing, size, now);
    if is_tracked(conns, id) {
        conns.update(connection_index(conns, id), updated)
    } else {
        conns.push(updated)
    }
}

/// Whether a packet of `size` bytes leaves the connection's counter in range.
pub open spec fn counter_has_room(
    conns: Seq<Connection>,
    id: ConnectionIdentifier,
    outgoing: bool,
    size: u64,
    now: TimeSpan,
) -> bool {
    let c = connection_or_new(conns, id, now);
    if outgoing {
        c.bytes_sent + size <= u64::MAX
    } else {
        c.bytes_received + size <= u64::MAX
    }
}

/// Each identifier at most once.
pub open spec fn distinct_identifiers(conns: Seq<Connection>) -> bool {
    forall|i: int, j: int|
        0 <= i < conns.len() && 0 <= j < conns.len() && i != j ==> #[trigger] conns[i].identifier
            != #[trigger] conns[j].identifier
}

/// A packet never lowers a connection's counters, leaves it established or
/// closed, and adds at most one connection; every other connection stays
/// as it was.
pub proof fn lemma_packet_effects(
    conns: Seq<Connection>,
    id: ConnectionIdentifier,
    outgoing: bool,
    size: u64,
    now: TimeSpan,
)
    requires
        distinct_identifiers(conns),
        counter_has_room(conns, id, outgoing, size, now),
    ensures
        ({
            let after = connections_after_packet(conns, id, outgoing, size, now);
            let c = connection_or_new(conns, id, now);
            let i = if is_tracked(conns, id) {
                connection_index(conns, id)
            } else {
                conns.len() as int
            };
            &&& distinct_identifiers(after)
            &&& after.len() == conns.len() + if is_tracked(conns, id) {
                0int
            } else {
                1int
            }
            &&& after[i].identifier == id
            &&& after[i].bytes_sent >= c.bytes_sent
            &&& after[i].bytes_received >= c.bytes_received
            &&& after[i].bytes_sent + after[i].bytes_received == c.bytes_sent + c.bytes_received
                + size
            &&& (after[i].state == ConnectionState::Established || after[i].state
                == ConnectionState::Closed)
            &&& forall|k: int| 0 <= k < conns.len() && k != i ==> #[trigger] after[k] == conns[k]
        }),
{
    let after = connections_after_packet(conns, id, outgoing, size, now);
    if is_tracked(conns, id) {
        let i = connection_index(conns, id);
        assert forall|a: int, b: int|
            0 <= a < after.len() && 0 <= b < after.len() && a != b implies #[trigger] after[a].identifier
            != #[trigger] after[b].identifier by {
            assert(conns[a].identifier != conns[b].identifier);
        }
    } else {
        assert forall|a: int, b: int|
            0 <= a < after.len() && 0 <= b < after.len() && a != b implies #[trigger] after[a].identifier
            != #[trigger] after[b].identifier by {
            if a < conns.len() && b < conns.len() {
                assert(conns[a].identifier != conns[b].identifier);
            } else if a < conns.len() {
                assert(conns[a].identifier != id);
            } else {
                assert(conns[b].identifier != id);
            }
        }
    }
}

/// A packet whose source address is in 10.0.0.0/8, 172.16.0.0/12 or
/// 192.168.0.0/16 adds its size to the bytes that its connection sent and
/// leaves the bytes received; a packet from any other address adds its
/// size to the bytes received and leaves the bytes sent. This holds of the
/// connection that `update_connection` finds or adds.
pub proof fn lemma_packet_direction(
    conns: Seq<Connection>,
    id: ConnectionIdentifier,
    a: u8,
    b: u8,
    c: u8,
    d: u8,
    size: u64,
    now: TimeSpan,
)
    requires
        id.source.ip == address_of_octets(a, b, c, d),
        counter_has_room(conns, id, is_private_ipv4(id.source.ip), size, now),
    ensures
        ({
            let after = connections_after_packet(conns, id, is_private_ipv4(id.source.ip), size, now);
            let before = connection_or_new(conns, id, now);
            let i = if is_tracked(conns, id) {
                connection_index(conns, id)
            } else {
                conns.len() as int
            };
            &&& 0 <= i < after.len()
            &&& after[i].identifier == id
            &&& (a == 10 || (a == 172 && 16 <= b <= 31) || (a == 192 && b == 168)) ==> {
                &&& after[i].bytes_sent == before.bytes_sent + size
                &&& after[i].bytes_received == before.bytes_received
            }
            &&& !(a == 10 || (a == 172 && 16 <= b <= 31) || (a == 192 && b == 168)) ==> {
                &&& after[i].bytes_received == before.bytes_received + size
                &&& after[i].bytes_sent == before.bytes_sent
            }
        }),
{
    lemma_private_addresses(a, b, c, d);
}

/// A packet as `update_connection` sees it: the connection's identifier,
/// whether it goes out, its size and when it was seen.
pub type PacketEvent = (ConnectionIdentifier, bool, u64, TimeSpan);

/// The connections after the packets, one after another.
pub open spec fn connections_after_packets(conns: Seq<Connection>, packets: Seq<PacketEvent>) -> Seq<
    Connection,
>
    decreases packets.len(),
{
    if packets.len() == 0 {
        conns
    } else {
        let p = packets.last();
        connections_after_packet(
            connections_after_packets(conns, packets.drop_last()),
            p.0,
            p.1,
            p.2,
            p.3,
        )
    }
}

/// The bytes of the packets of connection `id`.
pub open spec fn bytes_of(packets: Seq<PacketEvent>, id: ConnectionIdentifier) -> nat
    decreases packets.len(),
{
    if packets.len() == 0 {
        0
    } else {
        bytes_of(packets.drop_last(), id) + if packets.last().0 == id {
            packets.last().2 as nat
        } else {
            0
        }
    }
}

/// Whether some packet belongs to connection `id`.
pub open spec fn has_packet_of(packets: Seq<PacketEvent>, id: ConnectionIdentifier) -> bool {
    exists|i: int| 0 <= i < packets.len() && #[trigger] packets[i].0 == id
}

/// No packet of the sequence overflows its connection's counter: each
/// `update_connection` of the sequence meets that part of its `requires`.
pub open spec fn packets_fit(packets: Seq<PacketEvent>) -> bool {
    forall|i: int|
        0 <= i < packets.len() ==> counter_has_room(
            connections_after_packets(Seq::empty(), #[trigger] packets.take(i)),
            packets[i].0,
            packets[i].1,
            packets[i].2,
            packets[i].3,
        )
}

/// Over any sequence of packets given to a manager that starts empty, none
/// overflowing a counter: each connection is held once, under its own
/// identifier; every connection is established; there is a connection for
/// exactly the identifiers that some packet had; and the bytes sent and
/// received by a connection add up to the sizes of its packets.
pub proof fn lemma_connections_after_packets(packets: Seq<PacketEvent>)
    requires
        packets_fit(packets),
    ensures
        ({
            let after = connections_after_packets(Seq::empty(), packets);
            &&& distinct_identifiers(after)
            &&& forall|k: int|
                0 <= k < after.len() ==> (#[trigger] after[k]).state == ConnectionState::Established
                    && after[k].bytes_sent + after[k].bytes_received == bytes_of(
                    packets,
                    after[k].identifier,
                )
            &&& forall|id: ConnectionIdentifier|
                #[trigger] is_tracked(after, id) <==> has_packet_of(packets, id)
        }),
    decreases packets.len(),
{
    let after = connections_after_packets(Seq::empty(), packets);
    if packets.len() == 0 {
        assert forall|id: ConnectionIdentifier| #[trigger] is_tracked(after, id) <==> has_packet_of(
            packets,
            id,
        ) by {}
    } else {
        let init = packets.drop_last();
        let n = (packets.len() - 1) as int;
        assert(packets_fit(init)) by {
            assert forall|i: int| 0 <= i < init.len() implies counter_has_room(
                connections_after_packets(Seq::empty(), #[trigger] init.take(i)),
                init[i].0,
                init[i].1,
                init[i].2,
                init[i].3,
            ) by {
                assert(init.take(i) =~= packets.take(i));
                assert(packets.take(i) == packets.take(i));
            }
        }
        lemma_connections_after_packets(init);
        let before = connections_after_packets(Seq::empty(), init);
        let (id, out, size, now) = packets.last();
        assert(packets.take(n) =~= init);
        assert(counter_has_room(before, id, out, size, now)) by {
            assert(packets[n] == packets.last());
            assert(counter_has_room(
                connections_after_packets(Seq::empty(), packets.take(n)),
                packets[n].0,
                packets[n].1,
                packets[n].2,
                packets[n].3,
            ));
        }
        lemma_packet_effects(before, id, out, size, now);
        assert(after == connections_after_packet(before, id, out, size, now));
        if !is_tracked(before, id) {
            lemma_no_packet_no_bytes(init, id);
        }
        assert forall|k: int| 0 <= k < after.len() implies (#[trigger] after[k]).state
            == ConnectionState::Established && after[k].bytes_sent + after[k].bytes_received
            == bytes_of(packets, after[k].identifier) by {
            let i = if is_tracked(before, id) {
                connection_index(before, id)
            } else {
                before.len() as int
            };
            if k != i {
                assert(after[k] == before[k]);
                assert(before[k].identifier != id) by {
                    if is_tracked(before, id) {
                        assert(before[i].identifier == id);
                    } else {
                        assert(!is_tracked(before, id));
                    }
                }
            }
        }
        assert forall|x: ConnectionIdentifier| #[trigger] is_tracked(after, x) <==> has_packet_of(
            packets,
            x,
        ) by {
            let i = if is_tracked(before, id) {
                connection_index(before, id)
            } else {
                before.len() as int
            };
            if is_tracked(after, x) {
                let k = choose|k: int| 0 <= k < after.len() && #[trigger] after[k].identifier == x;
                if k == i {
                    assert(packets[n].0 == x);
                } else {
                    assert(after[k] == before[k]);
                    assert(is_tracked(before, x));
                    assert(has_packet_of(init, x));
                    let j = choose|j: int| 0 <= j < init.len() && #[trigger] init[j].0 == x;
                    assert(packets[j].0 == x);
                }
            }
            if has_packet_of(packets, x) {
                let j = choose|j: int| 0 <= j < packets.len() && #[trigger] packets[j].0 == x;
                if j == n {
                    assert(after[i].identifier == x);
                } else {
                    assert(init[j].0 == x);
                    assert(has_packet_of(init, x));
                    assert(is_tracked(before, x));
                    let k = choose|k: int| 0 <= k < before.len() && #[trigger] before[k].identifier == x;
                    if k == i {
                        assert(after[i].identifier == x);
                    } else {
                        assert(after[k] == before[k]);
                    }
                }
            }
        }
    }
}

/// A connection with no packet has no bytes.
proof fn lemma_no_packet_no_bytes(packets: Seq<PacketEvent>, id: ConnectionIdentifier)
    requires
        !has_packet_of(packets, id),
    ensures
        bytes_of(packets, id) == 0,
    decreases packets.len(),
{
    if packets.len() > 0 {
        let init = packets.drop_last();
        assert(!has_packet_of(init, id)) by {
            if has_packet_of(init, id) {
                let j = choose|j: int| 0 <= j < init.len() && #[trigger] init[j].0 == id;
                assert(packets[j].0 == id);
            }
        }
        lemma_no_packet_no_bytes(init, id);
        assert(packets[packets.len() - 1].0 != id);
    }
}

/// The connections seen. The traffic metrics that they feed are not held
/// here but handed to each update, so that the one set of metrics the
/// program keeps is the one that counts them.
///
/// The connections are a `Vec` whose identifiers stay distinct, not a
/// `HashMap`: Verus proves nothing of a `HashMap` whose key is a struct with
/// derived `Eq` and `Hash`, so lookups and updates by identifier could not
/// be stated over it.
pub struct ConnectionManager {
    connections: Vec<Connection>,
    max_idle_time: TimeSpan,
}

impl ConnectionManager {
    /// The connections, in the order first seen.
    pub closed spec fn connections(&self) -> Seq<Connection> {
        self.connections@
    }

    /// The idle time after which a connection may be dropped.
    pub closed spec fn idle_limit(&self) -> TimeSpan {
        self.max_idle_time
    }

    /// Each connection is held once: no two have the same identifier.
    pub open spec fn wf(&self) -> bool {
        distinct_identifiers(self.connections())
    }

    /// A manager with no connections.
    pub fn new(max_idle_time: TimeSpan) -> (r: ConnectionManager)
        ensures
            r.wf(),
            r.connections() == Seq::<Connection>::empty(),
            r.idle_limit() == max_idle_time,
    {
        ConnectionManager { connections: Vec::new(), max_idle_time }
    }

    /// How many connections are tracked.
    pub fn connection_count(&self) -> (r: usize)
        ensures
            r == self.connections().len(),
    {
        self.connections.len()
    }

    /// The connection with identifier `id`, where it is tracked.
    pub fn connection(&self, id: &ConnectionIdentifier) -> (r: Option<&Connection>)
        requires
            self.wf(),
        ensures
            match r {
                Some(c) => is_tracked(self.connections(), *id) && *c == self.connections()[connection_index(self.connections(), *id)],
                None => !is_tracked(self.connections(), *id),
            },
    {
        match self.find(id) {
            Some(i) => Some(&self.connections[i]),
            None => None,
        }
    }

    /// The position of the connection with identifier `id`.
    fn find(&self, id: &ConnectionIdentifier) -> (r: Option<usize>)
        requires
            self.wf(),
        ensures
            match r {
                Some(i) => i < self.connections().len() && is_tracked(self.connections(), *id)
                    && connection_index(self.connections(), *id) == i,
                None => !is_tracked(self.connections(), *id),
            },
    {
        let mut i: usize = 0;
        while i < self.connections.len()
            invariant
                i <= self.connections.len(),
                self.wf(),
                forall|k: int| 0 <= k < i ==> #[trigger] self.connections@[k].identifier != *id,
            decreases self.connections.len() - i,
        {
            if self.connections[i].identifier == *id {
                assert(is_tracked(self.connections@, *id));
                let ghost j = connection_index(self.connections@, *id);
                assert(j == i) by {
                    if j != i {
                        assert(self.connections@[j].identifier != self.connections@[i as int].identifier);
                    }
                }
                return Some(i);
            }
            i = i + 1;
        }
        None
    }

    /// Whether a packet from `src_ip` goes out: it does when the address is
    /// private.
    fn is_outgoing_packet(&self, src_ip: u32) -> (r: bool)
        ensures
            r == is_private_ipv4(src_ip),
    {
        is_private(src_ip)
    }

    /// Moves a connection to its next state.
    fn update_connection_state(&self, connection: &mut Connection)
        ensures
            *final(connection) == (Connection { state: next_state(old(connection).state), ..*old(connection) }),
    {
        connection.state = match connection.state {
            ConnectionState::New => ConnectionState::Established,
            ConnectionState::Closing => ConnectionState::Closed,
            _ => ConnectionState::Established,
        };
    }

    /// Records a packet of the connection between the two ends: its bytes
    /// count as sent when the source address is private, else as received,
    /// and under "TCP" in `metrics`; the connection's last activity
    /// becomes `now` and it moves to its next state. A connection not seen
    /// before is added as a new one first.
    pub fn update_connection(
        &mut self,
        metrics: &mut TrafficMetrics,
        protocol: u8,
        src_ip: u32,
        src_port: u16,
        dst_ip: u32,
        dst_port: u16,
        payload_size: usize,
        now: TimeSpan,
    )
        requires
            old(self).wf(),
            old(metrics).wf(),
            payload_size <= u64::MAX,
            has_room(old(metrics)@, "TCP"@, payload_size as nat),
            counter_has_room(
                old(self).connections(),
                ConnectionIdentifier {
                    protocol,
                    source: SocketAddress { ip: src_ip, port: src_port },
                    destination: SocketAddress { ip: dst_ip, port: dst_port },
                },
                is_private_ipv4(src_ip),
                payload_size as u64,
                now,
            ),
        ensures
            final(self).wf(),
            final(self).idle_limit() == old(self).idle_limit(),
            final(self).connections() == connections_after_packet(
                old(self).connections(),
                ConnectionIdentifier {
                    protocol,
                    source: SocketAddress { ip: src_ip, port: src_port },
                    destination: SocketAddress { ip: dst_ip, port: dst_port },
                },
                is_private_ipv4(src_ip),
                payload_size as u64,
                now,
            ),
            final(metrics).wf(),
            final(metrics)@ == metrics_after_add(old(metrics)@, "TCP"@, payload_size as u64),
    {
        let identifier = ConnectionIdentifier {
            protocol,
            source: SocketAddress { ip: src_ip, port: src_port },
            destination: SocketAddress { ip: dst_ip, port: dst_port },
        };
        let ghost conns = self.connections@;
        let index = match self.find(&identifier) {
            Some(i) => i,
            None => {
                self.connections.push(
                    Connection {
                        identifier,
                        state: ConnectionState::New,
                        last_activity: now,
                        bytes_sent: 0,
                        bytes_received: 0,
                    },
                );
                proof {
                    let nv = self.connections@;
                    assert forall|a: int, b: int|
                        0 <= a < nv.len() && 0 <= b < nv.len() && a != b implies #[trigger] nv[a].identifier
                        != #[trigger] nv[b].identifier by {
                        if a < conns.len() && b < conns.len() {
                            assert(conns[a].identifier != conns[b].identifier);
                        } else if a < conns.len() {
                            assert(conns[a].identifier != identifier);
                        } else {
                            assert(conns[b].identifier != identifier);
                        }
                    }
                }
                self.connections.len() - 1
            },
        };
        let outgoing = self.is_outgoing_packet(src_ip);
        let data_size = payload_size as u64;
        let mut connection = self.connections[index];
        if outgoing {
            connection.bytes_sent = connection.bytes_sent + data_size;
            metrics.add_data("TCP", data_size);
        } else {
            connection.bytes_received = connection.bytes_received + data_size;
            metrics.add_data("TCP", data_size);
        }
        connection.last_activity = now;
        self.update_connection_state(&mut connection);
        self.connections.set(index, connection);
        proof {
            let nv = self.connections@;
            assert(nv =~= connections_after_packet(conns, identifier, outgoing, data_size, now));
            assert forall|a: int, b: int|
                0 <= a < nv.len() && 0 <= b < nv.len() && a != b implies #[trigger] nv[a].identifier
                != #[trigger] nv[b].identifier by {
                assert(old(self).connections@.len() <= nv.len());
            }
        }
    }
}

} // verus!
