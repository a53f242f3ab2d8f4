//! A packet-capturing proxy library: packet dissection and per-protocol
//! traffic accounting, connection tracking, the DNS cache and lookup flow,
//! and the extraction of company names from RDAP registry answers.
pub mod text;
pub mod json;
pub mod api;
pub mod data;
pub mod listener;
