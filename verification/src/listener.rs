//! The listening side: packet dissection, traffic metrics and connection
//! tracking.
pub mod metrics;
pub mod packets;
pub mod protocols;
pub mod raw_sockets;
pub mod capture;
pub mod connection_manager;
pub mod timeout;
pub mod types;
