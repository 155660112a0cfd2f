//! What the scheduler knows of a task.

use crate::executor::worker_state::PollRecord;
use std::collections::HashMap;
use vstd::prelude::*;

#[allow(unused_imports)]
use crate::executor::worker_state::counted;

verus! {

/// High priority tasks are scheduled preferentially over low priority tasks.
#[derive(Copy, Clone, Debug, PartialEq, Eq, PartialOrd, Ord, Structural)]
pub enum TaskPriority {
    Low,
    High,
}

/// Counters of one task, written after each of its polls.
#[derive(Copy, Clone, Debug, PartialEq, Eq, Structural)]
pub struct TaskMetrics {
    pub total_polls: u64,
    pub total_stolen_polls: u64,
    pub total_poll_time_ns: u64,
    pub max_poll_time_ns: u64,
    /// Thread CPU consumed by the task's polls, when poll CPU tracking is on.
    pub total_poll_cpu_time_ns: u64,
    pub done: bool,
}

impl TaskMetrics {
    /// The counters of a task that was never polled.
    pub open spec fn zero() -> TaskMetrics {
        TaskMetrics {
            total_polls: 0,
            total_stolen_polls: 0,
            total_poll_time_ns: 0,
            max_poll_time_ns: 0,
            total_poll_cpu_time_ns: 0,
            done: false,
        }
    }

    /// The counters after one more poll.
    pub open spec fn polled(self, poll: PollRecord) -> TaskMetrics {
        TaskMetrics {
            total_polls: counted(self.total_polls, 1),
            total_stolen_polls: if poll.local {
                self.total_stolen_polls
            } else {
                counted(self.total_stolen_polls, 1)
            },
            total_poll_time_ns: counted(self.total_poll_time_ns, poll.elapsed_ns as int),
            max_poll_time_ns: if poll.elapsed_ns > self.max_poll_time_ns {
                poll.elapsed_ns
            } else {
                self.max_poll_time_ns
            },
            total_poll_cpu_time_ns: counted(self.total_poll_cpu_time_ns, poll.cpu_ns as int),
            done: self.done,
        }
    }

    /// Records a poll of the task.
    pub fn record_poll(&mut self, poll: PollRecord)
        ensures
            *final(self) == old(self).polled(poll),
    {
        self.total_polls = self.total_polls.wrapping_add(1);
        if !poll.local {
            self.total_stolen_polls = self.total_stolen_polls.wrapping_add(1);
        }
        self.total_poll_time_ns = self.total_poll_time_ns.wrapping_add(poll.elapsed_ns);
        self.total_poll_cpu_time_ns = self.total_poll_cpu_time_ns.wrapping_add(poll.cpu_ns);
        if poll.elapsed_ns > self.max_poll_time_ns {
            self.max_poll_time_ns = poll.elapsed_ns;
        }
    }
}

impl Default for TaskMetrics {
    fn default() -> (metrics: Self)
        ensures
            metrics == TaskMetrics::zero(),
    {
        TaskMetrics {
            total_polls: 0,
            total_stolen_polls: 0,
            total_poll_time_ns: 0,
            max_poll_time_ns: 0,
            total_poll_cpu_time_ns: 0,
            done: false,
        }
    }
}

/// The metrics of all tasks that are being measured, by their numbers.
pub struct TaskMetricsTable {
    metrics: HashMap<u64, TaskMetrics>,
    next: u64,
}

impl View for TaskMetricsTable {
    type V = Map<u64, TaskMetrics>;

    closed spec fn view(&self) -> Map<u64, TaskMetrics> {
        self.metrics@
    }
}

impl TaskMetricsTable {
    /// Numbers are given out in order.
    pub closed spec fn wf(&self) -> bool {
        forall|id: u64| self.metrics@.contains_key(id) ==> id < self.next
    }

    /// How many numbers are left to give out.
    pub closed spec fn room(&self) -> nat {
        (u64::MAX - self.next) as nat
    }

    /// `after` is this table with new metrics under the number `id`.
    pub open spec fn registers(&self, id: u64, after: TaskMetricsTable) -> bool {
        &&& !self@.contains_key(id)
        &&& after@ == self@.insert(id, TaskMetrics::zero())
        &&& after.room() + 1 == self.room()
    }

    /// A table without tasks.
    pub fn new() -> (table: TaskMetricsTable)
        ensures
            table.wf(),
            table.room() == u64::MAX,
            table@ == Map::<u64, TaskMetrics>::empty(),
    {
        broadcast use vstd::std_specs::hash::group_hash_axioms;

        TaskMetricsTable { metrics: HashMap::new(), next: 0 }
    }

    /// Whether there is a number left to give out.
    pub fn can_register(&self) -> (room: bool)
        ensures
            room == (self.room() > 0),
    {
        self.next < u64::MAX
    }

    /// Whether there are numbers left for the metrics of so many tasks.
    pub fn can_register_all(&self, tasks: usize) -> (room: bool)
        ensures
            room == (self.room() >= tasks),
    {
        u64::MAX - self.next >= tasks as u64
    }

    /// Starts measuring a task.
    pub fn register(&mut self) -> (id: u64)
        requires
            old(self).wf(),
            old(self).room() > 0,
        ensures
            final(self).wf(),
            old(self).registers(id, *final(self)),
    {
        broadcast use vstd::std_specs::hash::group_hash_axioms;

        let id: u64 = self.next;
        self.metrics.insert(id, TaskMetrics::default());
        self.next = id + 1;
        id
    }

    /// The metrics numbered `id`.
    pub fn get(&self, id: u64) -> (metrics: Option<TaskMetrics>)
        ensures
            metrics == (if self@.contains_key(id) {
                Some(self@[id])
            } else {
                None
            }),
    {
        broadcast use vstd::std_specs::hash::group_hash_axioms;

        match self.metrics.get(&id) {
            Some(metrics) => Some(*metrics),
            None => None,
        }
    }

    /// Records a poll of the task that is measured under `id`.
    pub fn record_poll(&mut self, id: u64, poll: PollRecord)
        requires
            old(self).wf(),
        ensures
            final(self).wf(),
            final(self).room() == old(self).room(),
            final(self)@ == (if old(self)@.contains_key(id) {
                old(self)@.insert(id, old(self)@[id].polled(poll))
            } else {
                old(self)@
            }),
    {
        broadcast use vstd::std_specs::hash::group_hash_axioms;

        if let Some(metrics) = self.get(id) {
            let mut metrics: TaskMetrics = metrics;
            metrics.record_poll(poll);
            self.metrics.insert(id, metrics);
        }
    }

    /// Marks the task that is measured under `id` as done.
    pub fn mark_done(&mut self, id: u64)
        requires
            old(self).wf(),
        ensures
            final(self).wf(),
            final(self).room() == old(self).room(),
            final(self)@ == (if old(self)@.contains_key(id) {
                old(self)@.insert(id, TaskMetrics { done: true, ..old(self)@[id] })
            } else {
                old(self)@
            }),
    {
        broadcast use vstd::std_specs::hash::group_hash_axioms;

        if let Some(metrics) = self.get(id) {
            let mut metrics: TaskMetrics = metrics;
            metrics.done = true;
            self.metrics.insert(id, metrics);
        }
    }

    /// Forgets the metrics numbered `id`. The number is not given out again.
    pub fn release(&mut self, id: u64)
        requires
            old(self).wf(),
        ensures
            final(self).wf(),
            final(self).room() == old(self).room(),
            final(self)@ == old(self)@.remove(id),
    {
        broadcast use vstd::std_specs::hash::group_hash_axioms;

        self.metrics.remove(&id);
        assert(self@ =~= old(self)@.remove(id));
    }
}

/// A poll is counted once: one more poll, a stolen one where the task came from
/// another thread, its whole time and CPU, and the longest of all. Counters go
/// round at their end.
pub proof fn law_poll_of_a_task_is_counted_once(metrics: &mut TaskMetrics, poll: PollRecord)
    requires
        call_ensures(TaskMetrics::record_poll, (metrics, poll), ()),
    ensures
        old(metrics).total_polls < u64::MAX ==> final(metrics).total_polls == old(metrics).total_polls + 1,
        old(metrics).total_stolen_polls < u64::MAX ==> final(metrics).total_stolen_polls - old(metrics).total_stolen_polls == (if poll.local {
            0int
        } else {
            1
        }),
        (final(metrics).total_poll_time_ns - old(metrics).total_poll_time_ns - poll.elapsed_ns)
            % 0x1_0000_0000_0000_0000 == 0,
        (final(metrics).total_poll_cpu_time_ns - old(metrics).total_poll_cpu_time_ns - poll.cpu_ns)
            % 0x1_0000_0000_0000_0000 == 0,
        final(metrics).max_poll_time_ns >= old(metrics).max_poll_time_ns,
        final(metrics).max_poll_time_ns >= poll.elapsed_ns,
        final(metrics).max_poll_time_ns == old(metrics).max_poll_time_ns || final(metrics).max_poll_time_ns == poll.elapsed_ns,
        final(metrics).done == old(metrics).done,
{
}

/// A table counts a poll for the task that it is told of and for no other, and
/// a task that it marks as done keeps its counters.
pub proof fn law_table_counts_for_one_task(
    table: &mut TaskMetricsTable,
    id: u64,
    poll: PollRecord,
    metrics: &mut TaskMetrics,
    marked: &mut TaskMetricsTable,
    released: &mut TaskMetricsTable,
)
    requires
        call_ensures(TaskMetricsTable::record_poll, (table, id, poll), ()),
        old(table)@.contains_key(id) ==> *old(metrics) == old(table)@[id],
        call_ensures(TaskMetrics::record_poll, (metrics, poll), ()),
        call_ensures(TaskMetricsTable::mark_done, (marked, id), ()),
        call_ensures(TaskMetricsTable::release, (released, id), ()),
    ensures
        final(table)@.dom() == old(table)@.dom(),
        old(table)@.contains_key(id) ==> final(table)@[id] == *final(metrics),
        forall|other: u64| #[trigger]
            old(table)@.contains_key(other) && other != id ==> final(table)@[other] == old(table)@[other],
        final(marked)@.dom() == old(marked)@.dom(),
        old(marked)@.contains_key(id) ==> {
            let before = old(marked)@[id];
            let after = final(marked)@[id];
            &&& after.done
            &&& after.total_polls == before.total_polls
            &&& after.total_stolen_polls == before.total_stolen_polls
            &&& after.total_poll_time_ns == before.total_poll_time_ns
            &&& after.total_poll_cpu_time_ns == before.total_poll_cpu_time_ns
            &&& after.max_poll_time_ns == before.max_poll_time_ns
        },
        forall|other: u64| #[trigger]
            old(marked)@.contains_key(other) && other != id ==> final(marked)@[other] == old(marked)@[other],
        !final(released)@.contains_key(id),
        forall|other: u64| #[trigger]
            old(released)@.contains_key(other) && other != id ==> final(released)@.contains_key(
                other,
            ) && final(released)@[other] == old(released)@[other],
{
    assert(final(table)@.dom() =~= old(table)@.dom());
    assert(final(marked)@.dom() =~= old(marked)@.dom());
}

/// A task that is registered starts from nothing, under a number that no other
/// task has.
pub proof fn law_registered_task_starts_from_nothing(table: &mut TaskMetricsTable, id: u64)
    requires
        call_ensures(TaskMetricsTable::register, (table,), id),
    ensures
        !old(table)@.contains_key(id),
        final(table)@.contains_key(id),
        final(table)@[id].total_polls == 0,
        final(table)@[id].total_stolen_polls == 0,
        final(table)@[id].total_poll_time_ns == 0,
        final(table)@[id].total_poll_cpu_time_ns == 0,
        final(table)@[id].max_poll_time_ns == 0,
        !final(table)@[id].done,
        forall|other: u64| #[trigger]
            final(table)@.contains_key(other) <==> other == id || old(table)@.contains_key(other),
        forall|other: u64| #[trigger]
            old(table)@.contains_key(other) ==> final(table)@[other] == old(table)@[other],
{
}

} // verus!
