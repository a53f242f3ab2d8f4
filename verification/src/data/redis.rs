//! The packet store: packets are kept in lists, one per protocol.
use vstd::prelude::*;
use crate::text::{push_str, string_of};

verus! {

/// The key of the list that holds the packets of `protocol`:
/// "packet:" followed by the protocol's name.
pub fn packet_key(protocol: &str) -> (r: String)
    ensures
        r@ == "packet:"@ + protocol@,
{
    let mut key = string_of("packet:");
    push_str(&mut key, protocol);
    key
}

} // verus!
