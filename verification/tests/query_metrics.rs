use polars_engine::executor::worker_state::WorkerStateTimes;
use polars_engine::metrics::query::QueryMetrics;

#[test]
fn segments_reconstruct_wall() {
    let q = QueryMetrics {
        wall_time_ns: 1000,
        state_update_time_ns: 100,
        phase_setup_time_ns: 50,
        phase_wait_time_ns: 800,
        detached_wait_time_ns: 30,
        output_time_ns: 10,
        ..Default::default()
    };
    assert_eq!(q.accounted_time_ns(), 990);
    assert_eq!(q.unaccounted_time_ns(), 10);
}

#[test]
fn over_accounting_does_not_underflow() {
    // Clock skew between segments must not wrap the residual to u64::MAX.
    let q = QueryMetrics {
        wall_time_ns: 100,
        phase_wait_time_ns: 200,
        ..Default::default()
    };
    assert_eq!(q.unaccounted_time_ns(), 0);
}

#[test]
fn idle_excludes_work_overlapping_state_updates() {
    let q = QueryMetrics {
        num_threads: 14,
        state_update_time_ns: 100,
        // Six threads' worth of work ran during those updates, so only the
        // remaining eight were idle -- not all thirteen non-driver threads.
        state_update_cpu_ns: 600,
        ..Default::default()
    };
    assert_eq!(q.state_update_idle_ns(), 800);
}

#[test]
fn idle_saturates_when_overlap_exceeds_the_budget() {
    let q = QueryMetrics {
        num_threads: 4,
        state_update_time_ns: 100,
        state_update_cpu_ns: 900,
        ..Default::default()
    };
    assert_eq!(q.state_update_idle_ns(), 0);
}

#[test]
fn thread_time_is_a_share_of_the_budget() {
    let q = QueryMetrics {
        wall_time_ns: 100,
        num_threads: 4,
        worker_states: WorkerStateTimes {
            poll_ns: 200,
            overhead_ns: 50,
            parked_ns: 100,
            poll_cpu_ns: 180,
            unattributed_poll_ns: 20,
        },
        ..Default::default()
    };
    assert_eq!(q.thread_time_budget_ns(), 400);
    assert_eq!(q.unaccounted_thread_time_ns(), 50);

    let busy = QueryMetrics {
        wall_time_ns: 10,
        ..q
    };
    assert_eq!(busy.unaccounted_thread_time_ns(), 0);
}
