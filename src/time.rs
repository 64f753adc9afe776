//! Absolute instants and time ranges, as plain integers.
use vstd::prelude::*;

verus! {

/// The largest second count whose value in milliseconds still fits in a `u64`.
pub const MAX_EPOCH_SECS: i64 = 18_446_744_073_709_551;

/// An absolute instant: whole seconds since the Unix epoch plus the
/// sub-second part in nanoseconds.
#[derive(Clone, Copy, Debug, PartialEq, Eq)]
pub struct Instant {
    pub secs: i64,
    pub nanos: u32,
}

impl Instant {
    /// `self` lies strictly before `other`.
    pub open spec fn precedes(self, other: Instant) -> bool {
        self.secs < other.secs || (self.secs == other.secs && self.nanos < other.nanos)
    }

    /// Whether `self` lies strictly after `other`.
    pub fn is_after(&self, other: &Instant) -> (r: bool)
        ensures
            r == other.precedes(*self),
    {
        self.secs > other.secs || (self.secs == other.secs && self.nanos > other.nanos)
    }
}

/// A requested time range, both ends inclusive.
#[derive(Clone, Copy, Debug, PartialEq, Eq)]
pub struct Range {
    pub from: Instant,
    pub to: Instant,
}

impl Range {
    /// `from` does not lie after `to`.
    pub open spec fn ordered(self) -> bool {
        !self.to.precedes(self.from)
    }

    /// Both ends, truncated to seconds, have an epoch value in milliseconds
    /// that fits in a `u64`.
    pub open spec fn representable(self) -> bool {
        0 <= self.from.secs && self.to.secs <= MAX_EPOCH_SECS
    }

    /// Whole seconds of the start.
    pub open spec fn from_secs(self) -> int {
        self.from.secs as int
    }

    /// Whole seconds of the end.
    pub open spec fn to_secs(self) -> int {
        self.to.secs as int
    }
}

} // verus!
