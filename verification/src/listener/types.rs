//! The types that the listening side shares.
use vstd::prelude::*;
use crate::text::string_of;

verus! {

/// An IPv4 socket address: the address as a 32-bit number (the first octet
/// most significant) and the port.
#[derive(Debug, Clone, Copy, PartialEq, Eq, Structural, Hash)]
pub struct SocketAddress {
    pub ip: u32,
    pub port: u16,
}

/// What tells one connection from another: the IP protocol number and the
/// two ends.
#[derive(Debug, Clone, Copy, PartialEq, Eq, Structural, Hash)]
pub struct ConnectionIdentifier {
    pub protocol: u8,
    pub source: SocketAddress,
    pub destination: SocketAddress,
}

/// Where a connection is in its life.
#[derive(Debug, Clone, Copy, PartialEq, Eq, Structural)]
pub enum ConnectionState {
    New,
    Established,
    Closing,
    Closed,
}

/// What is reported of a packet: its two ends and the size of its payload.
#[derive(Debug, Clone, PartialEq)]
pub struct PacketInfo {
    pub src_ip: String,
    pub dst_ip: String,
    pub src_port: u16,
    pub dst_port: u16,
    pub payload_size: u64,
}

/// Something that handles the packets described by `PacketInfo`.
pub trait ProcessPacket {
    fn process(&self, packet: &PacketInfo);
}

/// An IP address and the service it belongs to.
#[derive(Debug, Clone)]
pub struct DnsRecord {
    pub ip: String,
    pub service: String,
}

impl DnsRecord {
    /// A record of `ip` and `service`.
    pub fn new(ip: &str, service: &str) -> (r: DnsRecord)
        ensures
            r.ip@ == ip@,
            r.service@ == service@,
    {
        DnsRecord { ip: string_of(ip), service: string_of(service) }
    }
}

} // verus!
