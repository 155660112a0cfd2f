use polars_engine::cpu_time::{process_cpu_ns, thread_cpu_ns, ClockReading, FileTime};
use rustix::time::{clock_gettime, ClockId};

fn process_clock() -> Option<u64> {
    let ts = clock_gettime(ClockId::ProcessCPUTime);
    process_cpu_ns(ClockReading::Unix {
        rc: 0,
        tv_sec: ts.tv_sec as i64,
        tv_nsec: ts.tv_nsec as i64,
    })
}

#[test]
fn measures_busy_work() {
    let Some(before) = process_clock() else {
        // Platform without the clock: returning None rather than a wrong
        // number is the contract, so there is nothing to assert.
        return;
    };
    let sum = (0u64..20_000_000).fold(0u64, |a, b| std::hint::black_box(a.wrapping_add(b)));
    let after = process_clock().expect("clock available before but not after");
    assert!(sum > 0);
    assert!(
        after.saturating_sub(before) > 0,
        "busy loop consumed no measurable CPU"
    );
}

#[test]
fn readings_are_counted_in_nanoseconds() {
    let unix = ClockReading::Unix {
        rc: 0,
        tv_sec: 3,
        tv_nsec: 17,
    };
    assert_eq!(process_cpu_ns(unix), Some(3_000_000_017));
    assert_eq!(thread_cpu_ns(unix), Some(3_000_000_017));

    let windows = ClockReading::Windows {
        ok: 1,
        kernel: FileTime { low: 5, high: 1 },
        user: FileTime { low: 2, high: 0 },
    };
    assert_eq!(process_cpu_ns(windows), Some(((1u64 << 32) + 7) * 100));
    let later = ClockReading::Unix {
        rc: 0,
        tv_sec: 4,
        tv_nsec: 0,
    };
    assert!(process_cpu_ns(later) > process_cpu_ns(unix));
    assert_eq!(thread_cpu_ns(windows), None);
}

#[test]
fn a_clock_that_fails_reports_nothing() {
    let unix = ClockReading::Unix {
        rc: -1,
        tv_sec: 3,
        tv_nsec: 17,
    };
    let windows = ClockReading::Windows {
        ok: 0,
        kernel: FileTime { low: 5, high: 1 },
        user: FileTime { low: 2, high: 0 },
    };
    for reading in [unix, windows, ClockReading::Unavailable] {
        assert_eq!(process_cpu_ns(reading), None);
        assert_eq!(thread_cpu_ns(reading), None);
    }
}
