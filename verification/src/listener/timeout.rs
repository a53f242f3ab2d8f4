//! Timeouts of connections.
use vstd::prelude::*;

verus! {

/// A span of time in whole seconds and nanoseconds, as `std::time::Duration`
/// holds it.
#[derive(Debug, Clone, Copy, PartialEq, Eq, Structural)]
pub struct TimeSpan {
    pub secs: u64,
    pub nanos: u32,
}

impl TimeSpan {
    /// A span of `secs` seconds and `nanos` nanoseconds.
    pub fn new(secs: u64, nanos: u32) -> (r: TimeSpan)
        ensures
            r.secs == secs,
            r.nanos == nanos,
    {
        TimeSpan { secs, nanos }
    }
}

/// `a` is longer than `b`: the order of `Duration`, seconds first, then
/// nanoseconds.
pub open spec fn longer(a: TimeSpan, b: TimeSpan) -> bool {
    a.secs > b.secs || (a.secs == b.secs && a.nanos > b.nanos)
}

/// Whether the time since the last activity has passed the limit.
pub fn check_timeout(last_activity: TimeSpan, timeout_limit: TimeSpan) -> (r: bool)
    ensures
        r == longer(last_activity, timeout_limit),
{
    last_activity.secs > timeout_limit.secs || (last_activity.secs == timeout_limit.secs
        && last_activity.nanos > timeout_limit.nanos)
}

/// A span never passes itself.
pub proof fn lemma_timeout_irreflexive(a: TimeSpan)
    ensures
        !longer(a, a),
{
}

/// Of two spans, at most one passes the other.
pub proof fn lemma_timeout_asymmetric(a: TimeSpan, b: TimeSpan)
    ensures
        longer(a, b) ==> !longer(b, a),
{
}

/// Passing a limit that passes another passes that one too.
pub proof fn lemma_timeout_transitive(a: TimeSpan, b: TimeSpan, c: TimeSpan)
    ensures
        longer(a, b) && longer(b, c) ==> longer(a, c),
{
}

/// Of two different spans, one passes the other.
pub proof fn lemma_timeout_total(a: TimeSpan, b: TimeSpan)
    ensures
        a != b ==> longer(a, b) || longer(b, a),
{
}

} // verus!
