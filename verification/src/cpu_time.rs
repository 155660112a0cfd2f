//! CPU-time clocks, for work that no per-task counter covers.
//!
//! Per-task CPU is measured through the executor, but work outside a task -- a
//! node's state update and whatever it fans out to -- has no such counter.
//! Bracketing a region with [`process_cpu_ns`] gives its CPU without threading
//! a handle into whatever ran inside.
//!
//! Windows advances these counters on the scheduler tick, so short brackets
//! read as zero or as a whole tick. That is why [`thread_cpu_ns`], which times
//! individual polls, reports nothing there.

use vstd::prelude::*;

verus! {

/// A duration of Windows in its two halves, in units of 100 nanoseconds.
#[derive(Clone, Copy, Debug, PartialEq, Eq, Structural)]
pub struct FileTime {
    pub low: u32,
    pub high: u32,
}

impl FileTime {
    /// The duration in nanoseconds.
    pub open spec fn ns(self) -> int {
        (self.high * 0x1_0000_0000 + self.low) * 100
    }

    fn to_ns(self) -> (ns: u64)
        requires
            self.ns() <= u64::MAX,
        ensures
            ns == self.ns(),
    {
        let high: u32 = self.high;
        let low: u32 = self.low;
        let ticks: u64 = ((high as u64) << 32u64) | low as u64;
        assert(ticks == high * 0x1_0000_0000 + low) by (bit_vector)
            requires
                ticks == ((high as u64) << 32u64) | low as u64,
        ;
        ticks * 100
    }
}

/// What a platform's CPU clock answered.
#[derive(Clone, Copy, Debug, PartialEq, Eq, Structural)]
pub enum ClockReading {
    /// The return code of `clock_gettime` and the time it wrote.
    Unix { rc: i32, tv_sec: i64, tv_nsec: i64 },
    /// The return code of `GetProcessTimes` and the kernel and user time it wrote.
    Windows { ok: i32, kernel: FileTime, user: FileTime },
    /// The platform has no such clock.
    Unavailable,
}

impl ClockReading {
    /// A clock that answered gave a time that can be counted in nanoseconds.
    pub open spec fn in_range(self) -> bool {
        match self {
            ClockReading::Unix { rc, tv_sec, tv_nsec } => rc == 0 ==> tv_sec >= 0 && tv_nsec >= 0
                && tv_sec * 1_000_000_000 + tv_nsec <= u64::MAX,
            ClockReading::Windows { ok, kernel, user } => ok != 0 ==> kernel.ns() + user.ns()
                <= u64::MAX,
            ClockReading::Unavailable => true,
        }
    }

    /// The time of the reading, if the clock answered.
    pub open spec fn ns(self) -> Option<int> {
        match self {
            ClockReading::Unix { rc, tv_sec, tv_nsec } => if rc == 0 {
                Some(tv_sec * 1_000_000_000 + tv_nsec)
            } else {
                None
            },
            ClockReading::Windows { ok, kernel, user } => if ok != 0 {
                Some(kernel.ns() + user.ns())
            } else {
                None
            },
            ClockReading::Unavailable => None,
        }
    }
}

/// CPU time consumed by the process (all threads, user + system) in
/// nanoseconds, or `None` if the platform clock is unavailable.
///
/// Only differences are meaningful; the origin is unspecified.
pub fn process_cpu_ns(reading: ClockReading) -> (ns: Option<u64>)
    requires
        reading.in_range(),
    ensures
        match reading.ns() {
            Some(time) => ns is Some && ns->0 == time,
            None => ns is None,
        },
{
    match reading {
        ClockReading::Unix { rc, tv_sec, tv_nsec } => if rc == 0 {
            Some(tv_sec as u64 * 1_000_000_000 + tv_nsec as u64)
        } else {
            None
        },
        ClockReading::Windows { ok, kernel, user } => if ok == 0 {
            None
        } else {
            Some(kernel.to_ns() + user.to_ns())
        },
        ClockReading::Unavailable => None,
    }
}

/// Which of two readings of one clock is the later, or neither: both or neither
/// found the clock, and no part of the time went back.
pub open spec fn not_before(earlier: ClockReading, later: ClockReading) -> bool {
    match (earlier, later) {
        (
            ClockReading::Unix { rc: rc1, tv_sec: sec1, tv_nsec: nsec1 },
            ClockReading::Unix { rc: rc2, tv_sec: sec2, tv_nsec: nsec2 },
        ) => (rc1 == 0 <==> rc2 == 0) && nsec1 < 1_000_000_000 && nsec2 >= 0 && (sec1 < sec2 || sec1
            == sec2 && nsec1 <= nsec2),
        (
            ClockReading::Windows { ok: ok1, kernel: kernel1, user: user1 },
            ClockReading::Windows { ok: ok2, kernel: kernel2, user: user2 },
        ) => (ok1 == 0 <==> ok2 == 0) && kernel1.ns() <= kernel2.ns() && user1.ns() <= user2.ns(),
        (ClockReading::Unavailable, ClockReading::Unavailable) => true,
        _ => false,
    }
}

/// The time follows the clock: where the clock stays available and does not run
/// backwards, neither does the time, and where the clock advanced the time did.
/// Without the clock there is no time.
pub proof fn law_time_follows_the_clock(earlier: ClockReading, later: ClockReading)
    requires
        not_before(earlier, later),
    ensures
        earlier.ns() is Some <==> later.ns() is Some,
        earlier.ns() is Some ==> earlier.ns()->0 <= later.ns()->0,
        earlier.ns() is Some && earlier.ns()->0 == later.ns()->0 ==> not_before(later, earlier),
        earlier == ClockReading::Unavailable ==> earlier.ns() is None && later.ns() is None,
{
}

/// CPU time consumed by the calling thread (user + system) in nanoseconds, or
/// `None` where the platform cannot report it usefully.
///
/// Only differences are meaningful. Unlike a wall clock this does not advance
/// while the thread is descheduled, which is what makes it usable for timing a
/// poll under oversubscription.
///
/// Always `None` on Windows: its thread times have scheduler-tick granularity,
/// which cannot resolve a poll, and reporting nothing beats reporting that.
pub fn thread_cpu_ns(reading: ClockReading) -> (ns: Option<u64>)
    requires
        reading.in_range(),
    ensures
        match reading {
            ClockReading::Unix { .. } => match reading.ns() {
                Some(time) => ns is Some && ns->0 == time,
                None => ns is None,
            },
            _ => ns is None,
        },
{
    match reading {
        ClockReading::Unix { .. } => process_cpu_ns(reading),
        _ => None,
    }
}

/// The time of a clock is counted in nanoseconds: a billion for each second of
/// `clock_gettime`, and a hundred for each unit of the kernel and user time that
/// Windows reports in two halves. A clock that failed or is missing has no time,
/// and that of a thread none on Windows.
pub proof fn law_clock_is_counted_in_nanoseconds(
    reading: ClockReading,
    process: Option<u64>,
    thread: Option<u64>,
)
    requires
        call_ensures(process_cpu_ns, (reading,), process),
        call_ensures(thread_cpu_ns, (reading,), thread),
    ensures
        match reading {
            ClockReading::Unix { rc, tv_sec, tv_nsec } => {
                &&& rc == 0 ==> process is Some && process->0 == 1_000_000_000 * tv_sec + tv_nsec
                &&& rc != 0 ==> process is None
                &&& thread == process
            },
            ClockReading::Windows { ok, kernel, user } => {
                &&& ok != 0 ==> process is Some && process->0 == 100 * (kernel.low + user.low)
                    + 429_496_729_600 * (kernel.high + user.high)
                &&& ok == 0 ==> process is None
                &&& thread is None
            },
            ClockReading::Unavailable => process is None && thread is None,
        },
{
}

} // verus!
