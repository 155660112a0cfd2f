//! Metrics of one node of a graph.

use crate::executor::task::TaskMetrics;
use crate::io_metrics::IOMetrics;
use crate::metrics::custom::CustomMetric;
use vstd::prelude::*;

#[allow(unused_imports)]
use crate::metrics::custom::{larger, CustomMetricView};

verus! {

/// What a pipe between two nodes carried, seen from both ends.
#[derive(Clone, Copy, Debug, PartialEq, Eq, Structural)]
pub struct PipeMetrics {
    pub morsels_sent: u64,
    pub rows_sent: u64,
    pub largest_morsel_sent: u64,
    pub morsels_received: u64,
    pub rows_received: u64,
    pub largest_morsel_received: u64,
}

/// The numbers among a node's metrics.
#[derive(Clone, Copy, Debug, PartialEq, Eq, Structural)]
pub struct NodeCounters {
    pub total_polls: u64,
    pub total_stolen_polls: u64,
    pub total_poll_time_ns: u64,
    pub max_poll_time_ns: u64,
    pub poll_occupancy_ns: u64,
    pub total_poll_cpu_time_ns: u64,
    pub total_state_updates: u64,
    pub total_state_update_time_ns: u64,
    pub max_state_update_time_ns: u64,
    pub morsels_sent: u64,
    pub rows_sent: u64,
    pub largest_morsel_sent: u64,
    pub morsels_received: u64,
    pub rows_received: u64,
    pub largest_morsel_received: u64,
    pub io_total_active_ns: u64,
    pub io_total_bytes_requested: u64,
    pub io_total_bytes_received: u64,
    pub io_total_bytes_sent: u64,
    pub state_update_in_progress: bool,
    pub num_running_tasks: u32,
    pub done: bool,
}

/// The metrics of a node.
#[derive(Debug)]
pub struct NodeMetrics {
    pub total_polls: u64,
    pub total_stolen_polls: u64,
    pub total_poll_time_ns: u64,
    pub max_poll_time_ns: u64,
    /// Wall time during which at least one of this node's tasks was being
    /// polled, counting concurrent polls once.
    ///
    /// `total_poll_time_ns` divided by this is how wide the node ran.
    pub poll_occupancy_ns: u64,
    /// Thread CPU across this node's polls, when poll CPU tracking is on.
    pub total_poll_cpu_time_ns: u64,
    pub total_state_updates: u64,
    pub total_state_update_time_ns: u64,
    pub max_state_update_time_ns: u64,
    pub morsels_sent: u64,
    pub rows_sent: u64,
    pub largest_morsel_sent: u64,
    pub morsels_received: u64,
    pub rows_received: u64,
    pub largest_morsel_received: u64,
    pub io_total_active_ns: u64,
    pub io_total_bytes_requested: u64,
    pub io_total_bytes_received: u64,
    pub io_total_bytes_sent: u64,
    pub state_update_in_progress: bool,
    pub num_running_tasks: u32,
    pub done: bool,
    pub custom: Vec<CustomMetric>,
}

/// The same: the numbers, and the custom metrics as a sequence.
#[verifier::ext_equal]
pub struct NodeMetricsView {
    pub counters: NodeCounters,
    pub custom: Seq<CustomMetricView>,
}

impl View for NodeMetrics {
    type V = NodeMetricsView;

    open spec fn view(&self) -> NodeMetricsView {
        NodeMetricsView {
            counters: self.counters(),
            custom: self.custom@.map_values(|m: CustomMetric| m@),
        }
    }
}

impl NodeMetrics {
    /// The numbers among the metrics.
    pub open spec fn counters(&self) -> NodeCounters {
        NodeCounters {
            total_polls: self.total_polls,
            total_stolen_polls: self.total_stolen_polls,
            total_poll_time_ns: self.total_poll_time_ns,
            max_poll_time_ns: self.max_poll_time_ns,
            poll_occupancy_ns: self.poll_occupancy_ns,
            total_poll_cpu_time_ns: self.total_poll_cpu_time_ns,
            total_state_updates: self.total_state_updates,
            total_state_update_time_ns: self.total_state_update_time_ns,
            max_state_update_time_ns: self.max_state_update_time_ns,
            morsels_sent: self.morsels_sent,
            rows_sent: self.rows_sent,
            largest_morsel_sent: self.largest_morsel_sent,
            morsels_received: self.morsels_received,
            rows_received: self.rows_received,
            largest_morsel_received: self.largest_morsel_received,
            io_total_active_ns: self.io_total_active_ns,
            io_total_bytes_requested: self.io_total_bytes_requested,
            io_total_bytes_received: self.io_total_bytes_received,
            io_total_bytes_sent: self.io_total_bytes_sent,
            state_update_in_progress: self.state_update_in_progress,
            num_running_tasks: self.num_running_tasks,
            done: self.done,
        }
    }
}

/// Cumulative task counters already folded into a node.
#[derive(Clone, Copy, Debug, PartialEq, Eq, Structural)]
pub struct TaskCounters {
    pub polls: u64,
    pub stolen_polls: u64,
    pub poll_time_ns: u64,
    pub poll_cpu_ns: u64,
}

impl TaskCounters {
    /// Nothing folded in yet.
    pub open spec fn zero() -> TaskCounters {
        TaskCounters { polls: 0, stolen_polls: 0, poll_time_ns: 0, poll_cpu_ns: 0 }
    }

    /// The counters of a task.
    pub open spec fn of(m: TaskMetrics) -> TaskCounters {
        TaskCounters {
            polls: m.total_polls,
            stolen_polls: m.total_stolen_polls,
            poll_time_ns: m.total_poll_time_ns,
            poll_cpu_ns: m.total_poll_cpu_time_ns,
        }
    }

    /// None of the counters is past that of `now`.
    pub open spec fn at_most(self, now: TaskCounters) -> bool {
        &&& self.polls <= now.polls
        &&& self.stolen_polls <= now.stolen_polls
        &&& self.poll_time_ns <= now.poll_time_ns
        &&& self.poll_cpu_ns <= now.poll_cpu_ns
    }

    /// The counters of a task.
    pub fn read(m: &TaskMetrics) -> (counters: TaskCounters)
        ensures
            counters == TaskCounters::of(*m),
    {
        TaskCounters {
            polls: m.total_polls,
            stolen_polls: m.total_stolen_polls,
            poll_time_ns: m.total_poll_time_ns,
            poll_cpu_ns: m.total_poll_cpu_time_ns,
        }
    }
}

/// A task whose metrics are still being collected.
#[derive(Clone, Copy, Debug, PartialEq, Eq, Structural)]
pub struct InProgressTask {
    /// The number of the task's metrics.
    pub metrics: u64,
    /// What has already been folded in, so repeated reads add only what is new.
    pub applied: TaskCounters,
    /// Whether a flush has already seen the task report itself done.
    ///
    /// The last poll marks the task done, while the runner records that poll's
    /// count and duration just after. Releasing on the first flush that sees
    /// the task done can therefore drop the entry in between and lose the final
    /// poll. Holding it for one more flush closes that window.
    pub seen_done: bool,
}

impl InProgressTask {
    /// A task of which nothing was folded in yet.
    pub open spec fn fresh(metrics: u64) -> InProgressTask {
        InProgressTask { metrics, applied: TaskCounters::zero(), seen_done: false }
    }

    /// A task whose metrics have this number.
    pub fn new(metrics: u64) -> (task: InProgressTask)
        ensures
            task == InProgressTask::fresh(metrics),
    {
        InProgressTask {
            metrics,
            applied: TaskCounters { polls: 0, stolen_polls: 0, poll_time_ns: 0, poll_cpu_ns: 0 },
            seen_done: false,
        }
    }

    /// The task after a flush that read `m`.
    pub open spec fn flushed(self, m: TaskMetrics) -> InProgressTask {
        InProgressTask { metrics: self.metrics, applied: TaskCounters::of(m), seen_done: m.done }
    }
}

impl NodeCounters {
    /// The counters of a node that has done nothing.
    pub open spec fn zero() -> NodeCounters {
        NodeCounters {
            total_polls: 0,
            total_stolen_polls: 0,
            total_poll_time_ns: 0,
            max_poll_time_ns: 0,
            poll_occupancy_ns: 0,
            total_poll_cpu_time_ns: 0,
            total_state_updates: 0,
            total_state_update_time_ns: 0,
            max_state_update_time_ns: 0,
            morsels_sent: 0,
            rows_sent: 0,
            largest_morsel_sent: 0,
            morsels_received: 0,
            rows_received: 0,
            largest_morsel_received: 0,
            io_total_active_ns: 0,
            io_total_bytes_requested: 0,
            io_total_bytes_received: 0,
            io_total_bytes_sent: 0,
            state_update_in_progress: false,
            num_running_tasks: 0,
            done: false,
        }
    }

    /// The counters with what the task `m` did since `applied` folded in.
    pub open spec fn with_task(self, m: TaskMetrics, applied: TaskCounters) -> NodeCounters {
        NodeCounters {
            total_polls: (self.total_polls + m.total_polls - applied.polls) as u64,
            total_stolen_polls: (self.total_stolen_polls + m.total_stolen_polls
                - applied.stolen_polls) as u64,
            total_poll_time_ns: (self.total_poll_time_ns + m.total_poll_time_ns
                - applied.poll_time_ns) as u64,
            total_poll_cpu_time_ns: (self.total_poll_cpu_time_ns + m.total_poll_cpu_time_ns
                - applied.poll_cpu_ns) as u64,
            max_poll_time_ns: larger(
                self.max_poll_time_ns as int,
                m.max_poll_time_ns as int,
            ) as u64,
            num_running_tasks: (self.num_running_tasks + (if m.done {
                0int
            } else {
                1
            })) as u32,
            ..self
        }
    }

    /// Folding the task in stays in range: it did not undo anything, and the
    /// sums fit.
    pub open spec fn fits_task(self, m: TaskMetrics, applied: TaskCounters) -> bool {
        &&& applied.at_most(TaskCounters::of(m))
        &&& self.total_polls + m.total_polls - applied.polls <= u64::MAX
        &&& self.total_stolen_polls + m.total_stolen_polls - applied.stolen_polls <= u64::MAX
        &&& self.total_poll_time_ns + m.total_poll_time_ns - applied.poll_time_ns <= u64::MAX
        &&& self.total_poll_cpu_time_ns + m.total_poll_cpu_time_ns - applied.poll_cpu_ns
            <= u64::MAX
        &&& m.done || self.num_running_tasks < u32::MAX
    }

    /// The counters with the input and output of `io` in place of the old.
    pub open spec fn with_io(self, io: IOMetrics, now: u64) -> NodeCounters {
        NodeCounters {
            io_total_active_ns: io.io_timer.reading(now),
            io_total_bytes_requested: io.bytes_requested,
            io_total_bytes_received: io.bytes_received,
            io_total_bytes_sent: io.bytes_sent,
            ..self
        }
    }

    /// The counters after a state update that took `time_ns`.
    pub open spec fn state_updated(self, time_ns: u64, is_done: bool) -> NodeCounters {
        NodeCounters {
            total_state_updates: (self.total_state_updates + 1) as u64,
            total_state_update_time_ns: (self.total_state_update_time_ns + time_ns) as u64,
            max_state_update_time_ns: larger(
                self.max_state_update_time_ns as int,
                time_ns as int,
            ) as u64,
            state_update_in_progress: false,
            done: is_done,
            ..self
        }
    }

    /// The counters with what was sent through a pipe added.
    pub open spec fn with_sent(self, pipe: PipeMetrics) -> NodeCounters {
        NodeCounters {
            morsels_sent: (self.morsels_sent + pipe.morsels_sent) as u64,
            rows_sent: (self.rows_sent + pipe.rows_sent) as u64,
            largest_morsel_sent: larger(
                self.largest_morsel_sent as int,
                pipe.largest_morsel_sent as int,
            ) as u64,
            ..self
        }
    }

    /// What was sent can be added.
    pub open spec fn fits_sent(self, pipe: PipeMetrics) -> bool {
        self.morsels_sent + pipe.morsels_sent <= u64::MAX && self.rows_sent + pipe.rows_sent
            <= u64::MAX
    }

    /// The counters with what was received through a pipe added.
    pub open spec fn with_received(self, pipe: PipeMetrics) -> NodeCounters {
        NodeCounters {
            morsels_received: (self.morsels_received + pipe.morsels_received) as u64,
            rows_received: (self.rows_received + pipe.rows_received) as u64,
            largest_morsel_received: larger(
                self.largest_morsel_received as int,
                pipe.largest_morsel_received as int,
            ) as u64,
            ..self
        }
    }

    /// What was received can be added.
    pub open spec fn fits_received(self, pipe: PipeMetrics) -> bool {
        self.morsels_received + pipe.morsels_received <= u64::MAX && self.rows_received
            + pipe.rows_received <= u64::MAX
    }
}

impl NodeMetrics {
    /// Folds in whatever `task` has accumulated since it was last folded in.
    ///
    /// A task outliving its phase is read many times, so only the delta may be
    /// added: re-adding the cumulative value double-counts, and releasing the
    /// task after one read loses everything it does afterwards.
    pub fn add_task(&mut self, task: &mut InProgressTask, m: &TaskMetrics)
        requires
            old(self).counters().fits_task(*m, old(task).applied),
        ensures
            final(self).counters() == old(self).counters().with_task(*m, old(task).applied),
            *final(task) == (InProgressTask { applied: TaskCounters::of(*m), ..*old(task) }),
            final(self).custom == old(self).custom,
    {
        let now = TaskCounters::read(m);
        let applied = task.applied;
        task.applied = now;
        self.total_polls = self.total_polls + (now.polls - applied.polls);
        self.total_stolen_polls = self.total_stolen_polls + (now.stolen_polls
            - applied.stolen_polls);
        self.total_poll_time_ns = self.total_poll_time_ns + (now.poll_time_ns
            - applied.poll_time_ns);
        self.total_poll_cpu_time_ns = self.total_poll_cpu_time_ns + (now.poll_cpu_ns
            - applied.poll_cpu_ns);
        if m.max_poll_time_ns > self.max_poll_time_ns {
            self.max_poll_time_ns = m.max_poll_time_ns;
        }
        if !m.done {
            self.num_running_tasks = self.num_running_tasks + 1;
        }
    }

    fn add_io(&mut self, io: &IOMetrics, now: u64)
        requires
            io.io_timer.reading(now) + old(self).io_total_active_ns <= u64::MAX,
            old(self).io_total_bytes_requested + io.bytes_requested <= u64::MAX,
            old(self).io_total_bytes_received + io.bytes_received <= u64::MAX,
            old(self).io_total_bytes_sent + io.bytes_sent <= u64::MAX,
        ensures
            final(self).counters() == (NodeCounters {
                io_total_active_ns: (old(self).io_total_active_ns + io.io_timer.reading(
                    now,
                )) as u64,
                io_total_bytes_requested: (old(self).io_total_bytes_requested
                    + io.bytes_requested) as u64,
                io_total_bytes_received: (old(self).io_total_bytes_received
                    + io.bytes_received) as u64,
                io_total_bytes_sent: (old(self).io_total_bytes_sent + io.bytes_sent) as u64,
                ..old(self).counters()
            }),
            final(self).custom == old(self).custom,
    {
        self.io_total_active_ns = self.io_total_active_ns + io.io_timer.total_time_live_ns(now);
        self.io_total_bytes_requested = self.io_total_bytes_requested + io.bytes_requested;
        self.io_total_bytes_received = self.io_total_bytes_received + io.bytes_received;
        self.io_total_bytes_sent = self.io_total_bytes_sent + io.bytes_sent;
    }

    fn reset_io_metrics(&mut self)
        ensures
            final(self).counters() == (NodeCounters {
                io_total_active_ns: 0,
                io_total_bytes_requested: 0,
                io_total_bytes_received: 0,
                io_total_bytes_sent: 0,
                ..old(self).counters()
            }),
            final(self).custom == old(self).custom,
    {
        self.io_total_active_ns = 0;
        self.io_total_bytes_requested = 0;
        self.io_total_bytes_received = 0;
        self.io_total_bytes_sent = 0;
    }

    /// Reads the node's input and output anew.
    pub fn read_io(&mut self, io: &IOMetrics, now: u64)
        ensures
            final(self).counters() == old(self).counters().with_io(*io, now),
            final(self).custom == old(self).custom,
    {
        self.reset_io_metrics();
        self.add_io(io, now);
    }

    /// Takes note that the node's state is being updated.
    pub fn start_state_update(&mut self)
        ensures
            final(self).counters() == (NodeCounters {
                state_update_in_progress: true,
                ..old(self).counters()
            }),
            final(self).custom == old(self).custom,
    {
        self.state_update_in_progress = true;
    }

    /// Takes note that the node's state was updated, in `time_ns`.
    pub fn stop_state_update(&mut self, time_ns: u64, is_done: bool)
        requires
            old(self).total_state_updates < u64::MAX,
            old(self).total_state_update_time_ns + time_ns <= u64::MAX,
        ensures
            final(self).counters() == old(self).counters().state_updated(time_ns, is_done),
            final(self).custom == old(self).custom,
    {
        self.total_state_updates = self.total_state_updates + 1;
        self.total_state_update_time_ns = self.total_state_update_time_ns + time_ns;
        if time_ns > self.max_state_update_time_ns {
            self.max_state_update_time_ns = time_ns;
        }
        self.state_update_in_progress = false;
        self.done = is_done;
    }

    /// Adds what the node sent through a pipe.
    pub fn add_send_metrics(&mut self, pipe: &PipeMetrics)
        requires
            old(self).counters().fits_sent(*pipe),
        ensures
            final(self).counters() == old(self).counters().with_sent(*pipe),
            final(self).custom == old(self).custom,
    {
        self.morsels_sent = self.morsels_sent + pipe.morsels_sent;
        self.rows_sent = self.rows_sent + pipe.rows_sent;
        if pipe.largest_morsel_sent > self.largest_morsel_sent {
            self.largest_morsel_sent = pipe.largest_morsel_sent;
        }
    }

    /// Adds what the node received through a pipe.
    pub fn add_recv_metrics(&mut self, pipe: &PipeMetrics)
        requires
            old(self).counters().fits_received(*pipe),
        ensures
            final(self).counters() == old(self).counters().with_received(*pipe),
            final(self).custom == old(self).custom,
    {
        self.morsels_received = self.morsels_received + pipe.morsels_received;
        self.rows_received = self.rows_received + pipe.rows_received;
        if pipe.largest_morsel_received > self.largest_morsel_received {
            self.largest_morsel_received = pipe.largest_morsel_received;
        }
    }
}

impl NodeMetricsView {
    /// The metrics of a node that has done nothing.
    pub open spec fn zero() -> NodeMetricsView {
        NodeMetricsView { counters: NodeCounters::zero(), custom: Seq::empty() }
    }
}

impl Clone for NodeMetrics {
    fn clone(&self) -> (metrics: Self)
        ensures
            metrics@ == self@,
    {
        let mut custom: Vec<CustomMetric> = Vec::new();
        let mut i: usize = 0;
        while i < self.custom.len()
            invariant
                i <= self.custom@.len(),
                custom@.len() == i,
                forall|k: int| 0 <= k < i ==> (#[trigger] custom@[k])@ == self.custom@[k]@,
            decreases self.custom@.len() - i,
        {
            custom.push(self.custom[i].clone());
            i = i + 1;
        }
        let metrics = NodeMetrics {
            total_polls: self.total_polls,
            total_stolen_polls: self.total_stolen_polls,
            total_poll_time_ns: self.total_poll_time_ns,
            max_poll_time_ns: self.max_poll_time_ns,
            poll_occupancy_ns: self.poll_occupancy_ns,
            total_poll_cpu_time_ns: self.total_poll_cpu_time_ns,
            total_state_updates: self.total_state_updates,
            total_state_update_time_ns: self.total_state_update_time_ns,
            max_state_update_time_ns: self.max_state_update_time_ns,
            morsels_sent: self.morsels_sent,
            rows_sent: self.rows_sent,
            largest_morsel_sent: self.largest_morsel_sent,
            morsels_received: self.morsels_received,
            rows_received: self.rows_received,
            largest_morsel_received: self.largest_morsel_received,
            io_total_active_ns: self.io_total_active_ns,
            io_total_bytes_requested: self.io_total_bytes_requested,
            io_total_bytes_received: self.io_total_bytes_received,
            io_total_bytes_sent: self.io_total_bytes_sent,
            state_update_in_progress: self.state_update_in_progress,
            num_running_tasks: self.num_running_tasks,
            done: self.done,
            custom,
        };
        assert(metrics@.custom =~= self@.custom);
        metrics
    }
}

impl Default for NodeMetrics {
    fn default() -> (metrics: Self)
        ensures
            metrics@ == NodeMetricsView::zero(),
    {
        let metrics = NodeMetrics {
            total_polls: 0,
            total_stolen_polls: 0,
            total_poll_time_ns: 0,
            max_poll_time_ns: 0,
            poll_occupancy_ns: 0,
            total_poll_cpu_time_ns: 0,
            total_state_updates: 0,
            total_state_update_time_ns: 0,
            max_state_update_time_ns: 0,
            morsels_sent: 0,
            rows_sent: 0,
            largest_morsel_sent: 0,
            morsels_received: 0,
            rows_received: 0,
            largest_morsel_received: 0,
            io_total_active_ns: 0,
            io_total_bytes_requested: 0,
            io_total_bytes_received: 0,
            io_total_bytes_sent: 0,
            state_update_in_progress: false,
            num_running_tasks: 0,
            done: false,
            custom: Vec::new(),
        };
        assert(metrics@.custom =~= Seq::empty());
        metrics
    }
}

} // verus!
