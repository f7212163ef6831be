//! Time points and durations: second/nanosecond pairs with the nanosecond
//! part kept below one second.

use vstd::prelude::*;

verus! {

pub const NANOSECONDS_PER_SECOND: u32 = 1_000_000_000;

/// A span of time as seconds plus nanoseconds.
#[derive(PartialEq, Eq, Structural, Debug, Clone, Copy)]
pub struct Duration {
    pub sec: i32,
    pub nanosec: u32,
}

/// The whole span in nanoseconds.
pub open spec fn duration_nanos(d: Duration) -> int {
    d.sec * 1_000_000_000 + d.nanosec
}

impl Duration {
    /// The nanosecond part stays below one second.
    pub open spec fn wf(self) -> bool {
        self.nanosec < 1_000_000_000
    }

    /// Builds a duration, folding whole seconds of the nanosecond argument
    /// into the second count.
    pub fn new(sec: i32, nanosec: u32) -> (r: Self)
        requires
            sec + nanosec / 1_000_000_000 <= i32::MAX,
        ensures
            r.wf(),
            duration_nanos(r) == sec * 1_000_000_000 + nanosec,
    {
        let extra: i32 = (nanosec / NANOSECONDS_PER_SECOND) as i32;
        let sec: i32 = sec + extra;
        let nanosec: u32 = nanosec % NANOSECONDS_PER_SECOND;
        Duration { sec, nanosec }
    }

    /// The second part.
    pub fn sec(&self) -> (r: i32)
        ensures
            r == self.sec,
    {
        self.sec
    }

    /// The nanosecond part.
    pub fn nanosec(&self) -> (r: u32)
        ensures
            r == self.nanosec,
    {
        self.nanosec
    }

    /// The difference of two durations, with the nanosecond part borrowing
    /// from the seconds where needed.
    pub fn sub_duration(self, rhs: Duration) -> (r: Duration)
        requires
            self.wf(),
            rhs.wf(),
            i32::MIN <= self.sec - rhs.sec - 1,
            self.sec - rhs.sec <= i32::MAX,
        ensures
            r.wf(),
            duration_nanos(r) == duration_nanos(self) - duration_nanos(rhs),
    {
        let mut sec: i32 = self.sec - rhs.sec;
        let nanosec_diff: i64 = (self.nanosec as i64) - (rhs.nanosec as i64);
        let nanosec: u32 = if nanosec_diff < 0 {
            sec = sec - 1;
            (1_000_000_000 + nanosec_diff) as u32
        } else {
            self.nanosec - rhs.nanosec
        };
        Duration { sec, nanosec }
    }

    /// The zero-length span.
    pub fn zero() -> (r: Duration)
        ensures
            r.wf(),
            duration_nanos(r) == 0,
    {
        Duration { sec: 0, nanosec: 0 }
    }

    /// The reserved value standing for an unbounded span.
    pub fn infinite() -> (r: Duration)
        ensures
            r.sec == 0x7fffffff,
            r.nanosec == 0x7fffffff,
    {
        Duration { sec: 0x7fffffff, nanosec: 0x7fffffff }
    }
}

/// A point in time as seconds plus nanoseconds since the epoch.
#[derive(Clone, PartialEq, Eq, Structural, Debug, Copy)]
pub struct Time {
    pub sec: i32,
    pub nanosec: u32,
}

/// The whole point in nanoseconds.
pub open spec fn time_nanos(t: Time) -> int {
    t.sec * 1_000_000_000 + t.nanosec
}

impl Time {
    /// The nanosecond part stays below one second.
    pub open spec fn wf(self) -> bool {
        self.nanosec < 1_000_000_000
    }

    /// Builds a time point, folding whole seconds of the nanosecond argument
    /// into the second count.
    pub fn new(sec: i32, nanosec: u32) -> (r: Self)
        requires
            sec + nanosec / 1_000_000_000 <= i32::MAX,
        ensures
            r.wf(),
            time_nanos(r) == sec * 1_000_000_000 + nanosec,
    {
        let extra: i32 = (nanosec / NANOSECONDS_PER_SECOND) as i32;
        let sec: i32 = sec + extra;
        let nanosec: u32 = nanosec % NANOSECONDS_PER_SECOND;
        Time { sec, nanosec }
    }

    /// The second part.
    pub fn sec(&self) -> (r: i32)
        ensures
            r == self.sec,
    {
        self.sec
    }

    /// The nanosecond part.
    pub fn nanosec(&self) -> (r: u32)
        ensures
            r == self.nanosec,
    {
        self.nanosec
    }

    /// The span from `rhs` up to this point; negative spans carry the sign in
    /// the second part.
    pub fn sub_time(self, rhs: Time) -> (r: Duration)
        requires
            self.wf(),
            rhs.wf(),
            i32::MIN <= self.sec - rhs.sec - 1,
            self.sec - rhs.sec <= i32::MAX,
        ensures
            r.wf(),
            duration_nanos(r) == time_nanos(self) - time_nanos(rhs),
    {
        let lhs = Duration { sec: self.sec, nanosec: self.nanosec };
        let rhs = Duration { sec: rhs.sec, nanosec: rhs.nanosec };
        lhs.sub_duration(rhs)
    }
}

} // verus!
