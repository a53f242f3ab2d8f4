//! Stored data: the DNS registry and the packet store.
pub mod dns;
pub mod redis;
