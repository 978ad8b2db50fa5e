//! When a particle, and an actor built from it, expires.
use vstd::prelude::*;

verus! {

/// The absolute time, in milliseconds, at which a particle stops being valid:
/// its timestamp plus its time to live, saturating at `u64::MAX`.
pub open spec fn deadline_of(timestamp_ms: u64, ttl_ms: u32) -> u64 {
    if timestamp_ms + ttl_ms > u64::MAX {
        u64::MAX
    } else {
        (timestamp_ms + ttl_ms) as u64
    }
}

/// The moment after which a particle, or an actor built from it, is expired.
#[derive(Debug, Clone, Copy, PartialEq, Eq, Structural)]
pub struct Deadline {
    pub deadline_ms: u64,
}

impl Deadline {
    /// The deadline of a particle with this timestamp and time to live.
    pub fn new(timestamp_ms: u64, ttl_ms: u32) -> (r: Deadline)
        ensures
            r.deadline_ms == deadline_of(timestamp_ms, ttl_ms),
    {
        Deadline { deadline_ms: timestamp_ms.saturating_add(ttl_ms as u64) }
    }

    /// Whether the deadline has come at `now_ms`.
    pub fn is_expired(&self, now_ms: u64) -> (r: bool)
        ensures
            r == (now_ms >= self.deadline_ms),
    {
        now_ms >= self.deadline_ms
    }
}

} // verus!
