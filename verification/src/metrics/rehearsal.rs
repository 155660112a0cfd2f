//! Whether a flush would stay in range.
//!
//! A flush counts in 64 bits, and its tables take no older version of a slot
//! than the one in use. Whether all of it fits shows only as it goes on, so it
//! is rehearsed on a copy of the nodes' numbers.

use crate::executor::task::{TaskMetrics, TaskMetricsTable};
use crate::io_metrics::{IOMetrics, IOMetricsTable};
use crate::keys;
use crate::metrics::graph::{Collected, GraphMetrics, LogicalPipe, LogicalPipes, PipeMetricsTable};
use crate::metrics::node::{InProgressTask, NodeCounters, NodeMetrics, PipeMetrics, TaskCounters};
use vstd::prelude::*;

#[allow(unused_imports)]
use crate::keys::{admits, entered, is_slot_order, lemma_slot_order_distinct, lemma_slot_order_unique, without_rivals};
#[allow(unused_imports)]
use crate::metrics::graph::{admits_all, fold_tasks, get_or, lemma_pipe_fits_prefix, lemma_pipes_fit_prefix, lemma_push_set, lemma_tasks_fit_prefix, lemma_updated_none, lemma_updated_step, node_or_zero, not_running, pipe_all_fits, pipe_fits, pipes_fit, tasks_fit, updated, with_custom, with_io, with_occupancy, with_pipe_all, with_pipes, with_receiver, with_tasks, GraphMetricsView};
#[allow(unused_imports)]
use crate::metrics::node::NodeMetricsView;

verus! {

/// The numbers of the nodes, by key.
struct Rehearsal {
    entries: Vec<(u64, NodeCounters)>,
}

/// The last entry of each key.
spec fn map_of(entries: Seq<(u64, NodeCounters)>) -> Map<u64, NodeCounters>
    decreases entries.len(),
{
    if entries.len() == 0 {
        Map::empty()
    } else {
        map_of(entries.drop_last()).insert(entries.last().0, entries.last().1)
    }
}

/// The numbers among the nodes' metrics.
spec fn counters_of(nodes: Map<u64, NodeMetricsView>) -> Map<u64, NodeCounters> {
    nodes.map_values(|node: NodeMetricsView| node.counters)
}

proof fn lemma_counters_entered(nodes: Map<u64, NodeMetricsView>, key: u64, node: NodeMetricsView)
    ensures
        counters_of(entered(nodes, key, node)) == entered(counters_of(nodes), key, node.counters),
        get_or(counters_of(nodes), key, NodeCounters::zero()) == node_or_zero(nodes, key).counters,
        counters_of(nodes).dom() == nodes.dom(),
{
    assert(counters_of(nodes).dom() =~= nodes.dom());
    assert(counters_of(entered(nodes, key, node)) =~= entered(
        counters_of(nodes),
        key,
        node.counters,
    ));
}

impl View for Rehearsal {
    type V = Map<u64, NodeCounters>;

    closed spec fn view(&self) -> Map<u64, NodeCounters> {
        map_of(self.entries@)
    }
}

/// What a flush reads of a node in place of what it read before.
#[derive(Clone, Copy)]
enum Reading {
    Occupancy(u64),
    Io { active_ns: u64, requested: u64, received: u64, sent: u64 },
    Custom,
}

impl Reading {
    spec fn applied(self, counters: NodeCounters) -> NodeCounters {
        match self {
            Reading::Occupancy(poll_occupancy_ns) => NodeCounters { poll_occupancy_ns, ..counters },
            Reading::Io { active_ns, requested, received, sent } => NodeCounters {
                io_total_active_ns: active_ns,
                io_total_bytes_requested: requested,
                io_total_bytes_received: received,
                io_total_bytes_sent: sent,
                ..counters
            },
            Reading::Custom => counters,
        }
    }

    fn apply(self, counters: NodeCounters) -> (after: NodeCounters)
        ensures
            after == self.applied(counters),
    {
        match self {
            Reading::Occupancy(poll_occupancy_ns) => NodeCounters { poll_occupancy_ns, ..counters },
            Reading::Io { active_ns, requested, received, sent } => NodeCounters {
                io_total_active_ns: active_ns,
                io_total_bytes_requested: requested,
                io_total_bytes_received: received,
                io_total_bytes_sent: sent,
                ..counters
            },
            Reading::Custom => counters,
        }
    }
}

/// The counters with the new work of one task, if it fits.
fn add_task(counters: NodeCounters, m: &TaskMetrics, applied: TaskCounters) -> (after: Option<
    NodeCounters,
>)
    ensures
        after == (if counters.fits_task(*m, applied) {
            Some(counters.with_task(*m, applied))
        } else {
            None
        }),
{
    if applied.polls > m.total_polls || applied.stolen_polls > m.total_stolen_polls
        || applied.poll_time_ns > m.total_poll_time_ns || applied.poll_cpu_ns
        > m.total_poll_cpu_time_ns {
        return None;
    }
    if m.total_polls - applied.polls > u64::MAX - counters.total_polls || m.total_stolen_polls
        - applied.stolen_polls > u64::MAX - counters.total_stolen_polls || m.total_poll_time_ns
        - applied.poll_time_ns > u64::MAX - counters.total_poll_time_ns || m.total_poll_cpu_time_ns
        - applied.poll_cpu_ns > u64::MAX - counters.total_poll_cpu_time_ns {
        return None;
    }
    if !m.done && counters.num_running_tasks == u32::MAX {
        return None;
    }
    Some(
        NodeCounters {
            total_polls: counters.total_polls + (m.total_polls - applied.polls),
            total_stolen_polls: counters.total_stolen_polls + (m.total_stolen_polls
                - applied.stolen_polls),
            total_poll_time_ns: counters.total_poll_time_ns + (m.total_poll_time_ns
                - applied.poll_time_ns),
            total_poll_cpu_time_ns: counters.total_poll_cpu_time_ns + (m.total_poll_cpu_time_ns
                - applied.poll_cpu_ns),
            max_poll_time_ns: if counters.max_poll_time_ns >= m.max_poll_time_ns {
                counters.max_poll_time_ns
            } else {
                m.max_poll_time_ns
            },
            num_running_tasks: if m.done {
                counters.num_running_tasks
            } else {
                counters.num_running_tasks + 1
            },
            ..counters
        },
    )
}

/// The counters with the new work of all the tasks, if it fits.
fn add_tasks(
    counters: NodeCounters,
    tasks: &Vec<InProgressTask>,
    table: &TaskMetricsTable,
) -> (after: Option<NodeCounters>)
    ensures
        after == (if tasks_fit(counters, tasks@, table@) {
            Some(fold_tasks(counters, tasks@, table@))
        } else {
            None
        }),
{
    let mut sum: NodeCounters = counters;
    let mut i: usize = 0;
    while i < tasks.len()
        invariant
            i <= tasks@.len(),
            tasks_fit(counters, tasks@.take(i as int), table@),
            sum == fold_tasks(counters, tasks@.take(i as int), table@),
        decreases tasks@.len() - i,
    {
        let task: InProgressTask = tasks[i];
        let ghost next = tasks@.take(i + 1);
        proof {
            assert(next.drop_last() =~= tasks@.take(i as int));
            assert(next.last() == task);
        }
        let mut more: Option<NodeCounters> = None;
        if let Some(metrics) = table.get(task.metrics) {
            more = add_task(sum, &metrics, task.applied);
        }
        match more {
            Some(more) => {
                sum = more;
            },
            None => {
                proof {
                    assert(!tasks_fit(counters, next, table@));
                    if tasks_fit(counters, tasks@, table@) {
                        lemma_tasks_fit_prefix(counters, tasks@, table@, i + 1);
                    }
                }
                return None;
            },
        }
        i = i + 1;
    }
    assert(tasks@.take(i as int) =~= tasks@);
    Some(sum)
}

impl Rehearsal {
    /// The numbers of the graph's nodes.
    fn new(graph: &GraphMetrics) -> (rehearsal: Rehearsal)
        requires
            graph.wf(),
        ensures
            rehearsal@ == counters_of(graph@.nodes),
    {
        let keys: Vec<u64> = graph.keys_of(Collected::Nodes);
        let mut entries: Vec<(u64, NodeCounters)> = Vec::new();
        proof {
            graph.lemma_wf();
            lemma_slot_order_distinct(graph@.nodes.dom(), keys@);
            assert(map_of(entries@) =~= counters_of(graph@.nodes).restrict(
                keys@.take(0).to_set(),
            ));
        }
        let mut i: usize = 0;
        while i < keys.len()
            invariant
                i <= keys@.len(),
                graph.wf(),
                graph@.wf(),
                is_slot_order(graph@.nodes.dom(), keys@),
                map_of(entries@) == counters_of(graph@.nodes).restrict(
                    keys@.take(i as int).to_set(),
                ),
            decreases keys@.len() - i,
        {
            let key: u64 = keys[i];
            proof {
                assert(keys@.contains(key));
                assert(graph@.nodes.dom().contains(key));
            }
            let ghost before = entries@;
            if let Some(node) = graph.get(key) {
                entries.push((key, counters_now(node)));
            }
            proof {
                assert(entries@.drop_last() =~= before);
                let done = keys@.take(i as int);
                assert(keys@.take(i + 1) =~= done.push(key));
                lemma_push_set(done, key);
                assert(map_of(entries@) =~= counters_of(graph@.nodes).restrict(
                    keys@.take(i + 1).to_set(),
                ));
            }
            i = i + 1;
        }
        proof {
            assert(keys@.take(i as int) =~= keys@);
            assert(map_of(entries@) =~= counters_of(graph@.nodes));
        }
        Rehearsal { entries }
    }

    /// The keys of the nodes.
    fn keys(&self) -> (keys: Vec<u64>)
        ensures
            keys@.to_set() == self@.dom(),
    {
        let mut keys: Vec<u64> = Vec::new();
        let mut i: usize = 0;
        assert(keys@.to_set() =~= map_of(self.entries@.take(0)).dom());
        while i < self.entries.len()
            invariant
                i <= self.entries@.len(),
                keys@.to_set() == map_of(self.entries@.take(i as int)).dom(),
            decreases self.entries@.len() - i,
        {
            let key: u64 = self.entries[i].0;
            proof {
                let next = self.entries@.take(i + 1);
                assert(next.drop_last() =~= self.entries@.take(i as int));
                lemma_push_set(keys@, key);
                assert(map_of(next).dom() =~= map_of(self.entries@.take(i as int)).dom().insert(
                    key,
                ));
            }
            keys.push(key);
            i = i + 1;
        }
        assert(self.entries@.take(i as int) =~= self.entries@);
        keys
    }

    /// The numbers of a node, which are zero where it has none.
    fn get(&self, key: u64) -> (counters: NodeCounters)
        ensures
            counters == get_or(self@, key, NodeCounters::zero()),
    {
        let mut counters: NodeCounters = zero();
        let mut i: usize = 0;
        while i < self.entries.len()
            invariant
                i <= self.entries@.len(),
                counters == get_or(
                    map_of(self.entries@.take(i as int)),
                    key,
                    NodeCounters::zero(),
                ),
            decreases self.entries@.len() - i,
        {
            proof {
                let next = self.entries@.take(i + 1);
                assert(next.drop_last() =~= self.entries@.take(i as int));
            }
            if self.entries[i].0 == key {
                counters = self.entries[i].1;
            }
            i = i + 1;
        }
        assert(self.entries@.take(i as int) =~= self.entries@);
        counters
    }

    /// Puts the numbers of a node in place of those of other versions of its
    /// slot.
    fn enter(&mut self, key: u64, counters: NodeCounters)
        ensures
            final(self)@ == entered(old(self)@, key, counters),
    {
        let mut kept: Vec<(u64, NodeCounters)> = Vec::new();
        let mut i: usize = 0;
        assert(map_of(kept@) =~= others(map_of(self.entries@.take(0)), key));
        while i < self.entries.len()
            invariant
                i <= self.entries@.len(),
                self.entries == old(self).entries,
                map_of(kept@) == others(map_of(self.entries@.take(i as int)), key),
            decreases self.entries@.len() - i,
        {
            let entry: (u64, NodeCounters) = self.entries[i];
            let ghost before = kept@;
            let ghost next = self.entries@.take(i + 1);
            assert(next.drop_last() =~= self.entries@.take(i as int));
            if entry.0 % 0x1_0000_0000 != key % 0x1_0000_0000 {
                kept.push(entry);
                assert(kept@.drop_last() =~= before);
            }
            assert(map_of(kept@) =~= others(map_of(next), key));
            i = i + 1;
        }
        assert(self.entries@.take(i as int) =~= self.entries@);
        let ghost rest = kept@;
        kept.push((key, counters));
        assert(kept@.drop_last() =~= rest);
        self.entries = kept;
        assert(self@ =~= entered(old(self)@, key, counters));
    }

    /// Collects the tasks, if they fit.
    fn collect_tasks(&mut self, graph: &GraphMetrics, table: &TaskMetricsTable) -> (fits: bool)
        requires
            graph.wf(),
            old(self)@ == counters_of(graph@.nodes),
        ensures
            fits == graph@.tasks_in_range(table@),
            fits ==> final(self)@ == counters_of(graph@.tasks_collected(table@).nodes),
    {
        let ghost at = graph@;
        let ghost change = |key: u64, node: NodeMetricsView|
            with_tasks(node, at.tasks[key], table@);
        let keys: Vec<u64> = graph.keys_of(Collected::Tasks);
        let known: Vec<u64> = self.keys();
        proof {
            graph.lemma_wf();
            lemma_slot_order_distinct(at.tasks.dom(), keys@);
            lemma_updated_none(at.nodes, keys@, change);
            lemma_counters_entered(at.nodes, 0, NodeMetricsView::zero());
        }
        let mut i: usize = 0;
        while i < keys.len()
            invariant
                i <= keys@.len(),
                graph.wf(),
                at == graph@,
                at.wf(),
                is_slot_order(at.tasks.dom(), keys@),
                known@.to_set() == at.nodes.dom(),
                change == (|key: u64, node: NodeMetricsView|
                    with_tasks(node, at.tasks[key], table@)),
                self@ == counters_of(updated(at.nodes, keys@.take(i as int).to_set(), change)),
                forall|j: int|
                    0 <= j < i ==> admits(at.nodes.dom(), #[trigger] keys@[j]) && tasks_fit(
                        not_running(node_or_zero(at.nodes, keys@[j]).counters),
                        at.tasks[keys@[j]],
                        table@,
                    ),
            decreases keys@.len() - i,
        {
            let key: u64 = keys[i];
            let ghost before = updated(at.nodes, keys@.take(i as int).to_set(), change);
            proof {
                assert(keys@.contains(key));
                assert(at.tasks.dom().contains(key));
                assert(at.tasks.contains_key(key));
                lemma_updated_step(at.nodes, at.tasks.dom(), keys@, i as int, change);
                lemma_counters_entered(before, key, change(key, node_or_zero(at.nodes, key)));
            }
            if !keys::takes(&known, key) {
                assert(!admits_all(at.nodes, at.tasks.dom()));
                return false;
            }
            let counters = NodeCounters { num_running_tasks: 0, ..self.get(key) };
            if let Some(tasks) = graph.tasks_of(key) {
                match add_tasks(counters, tasks, table) {
                    Some(counters) => {
                        self.enter(key, counters);
                    },
                    None => {
                        return false;
                    },
                }
            }
            i = i + 1;
        }
        proof {
            assert(keys@.take(i as int) =~= keys@);
            assert forall|key: u64| #[trigger] at.tasks.dom().contains(key) implies admits(
                at.nodes.dom(),
                key,
            ) && tasks_fit(
                not_running(node_or_zero(at.nodes, key).counters),
                at.tasks[key],
                table@,
            ) by {
                let j = keys@.index_of(key);
                assert(keys@[j] == key);
            }
            assert forall|key: u64| #[trigger] at.tasks.contains_key(key) implies tasks_fit(
                not_running(node_or_zero(at.nodes, key).counters),
                at.tasks[key],
                table@,
            ) by {
                assert(at.tasks.dom().contains(key));
            }
            assert(at.tasks_collected(table@).nodes == updated(at.nodes, at.tasks.dom(), change));
        }
        true
    }

    /// Reads what is read anew of each node, if the table takes them all.
    fn collect_readings(
        &mut self,
        keys: &Vec<u64>,
        readings: &Vec<Reading>,
        Ghost(nodes): Ghost<Map<u64, NodeMetricsView>>,
        Ghost(all): Ghost<Set<u64>>,
        Ghost(change): Ghost<spec_fn(u64, NodeMetricsView) -> NodeMetricsView>,
    ) -> (fits: bool)
        requires
            old(self)@ == counters_of(nodes),
            is_slot_order(all, keys@),
            readings@.len() == keys@.len(),
            forall|i: int, node: NodeMetricsView|
                0 <= i < keys@.len() ==> (#[trigger] change(keys@[i], node)).counters
                    == readings@[i].applied(node.counters),
        ensures
            fits == admits_all(nodes, all),
            fits ==> final(self)@ == counters_of(updated(nodes, all, change)),
    {
        let known: Vec<u64> = self.keys();
        proof {
            lemma_slot_order_distinct(all, keys@);
            lemma_updated_none(nodes, keys@, change);
            lemma_counters_entered(nodes, 0, NodeMetricsView::zero());
        }
        let mut i: usize = 0;
        while i < keys.len()
            invariant
                i <= keys@.len(),
                is_slot_order(all, keys@),
                readings@.len() == keys@.len(),
                known@.to_set() == nodes.dom(),
                forall|i: int, node: NodeMetricsView|
                    0 <= i < keys@.len() ==> (#[trigger] change(keys@[i], node)).counters
                        == readings@[i].applied(node.counters),
                self@ == counters_of(updated(nodes, keys@.take(i as int).to_set(), change)),
                forall|j: int| 0 <= j < i ==> admits(nodes.dom(), #[trigger] keys@[j]),
            decreases keys@.len() - i,
        {
            let key: u64 = keys[i];
            let ghost before = updated(nodes, keys@.take(i as int).to_set(), change);
            proof {
                assert(keys@.contains(key));
                assert(all.contains(key));
                lemma_updated_step(nodes, all, keys@, i as int, change);
                lemma_counters_entered(before, key, change(key, node_or_zero(nodes, key)));
            }
            if !keys::takes(&known, key) {
                return false;
            }
            let counters = readings[i].apply(self.get(key));
            assert(change(keys@[i as int], node_or_zero(nodes, key)).counters == counters);
            self.enter(key, counters);
            i = i + 1;
        }
        proof {
            assert(keys@.take(i as int) =~= keys@);
            assert forall|key: u64| #[trigger] all.contains(key) implies admits(nodes.dom(), key) by {
                let j = keys@.index_of(key);
                assert(keys@[j] == key);
            }
        }
        true
    }

    /// Collects one end of a pipe, if it fits.
    fn collect_end(&mut self, key: u64, metrics: &PipeMetrics, receives: bool) -> (fits: bool)
        ensures
            ({
                let counters = get_or(old(self)@, key, NodeCounters::zero());
                &&& fits == (admits(old(self)@.dom(), key) && if receives {
                    counters.fits_received(*metrics)
                } else {
                    counters.fits_sent(*metrics)
                })
                &&& fits ==> final(self)@ == entered(
                    old(self)@,
                    key,
                    if receives {
                        counters.with_received(*metrics)
                    } else {
                        counters.with_sent(*metrics)
                    },
                )
            }),
    {
        let known: Vec<u64> = self.keys();
        if !keys::takes(&known, key) {
            return false;
        }
        let counters: NodeCounters = self.get(key);
        if receives {
            if metrics.morsels_received > u64::MAX - counters.morsels_received
                || metrics.rows_received > u64::MAX - counters.rows_received {
                return false;
            }
            self.enter(
                key,
                NodeCounters {
                    morsels_received: counters.morsels_received + metrics.morsels_received,
                    rows_received: counters.rows_received + metrics.rows_received,
                    largest_morsel_received: if counters.largest_morsel_received
                        >= metrics.largest_morsel_received {
                        counters.largest_morsel_received
                    } else {
                        metrics.largest_morsel_received
                    },
                    ..counters
                },
            );
        } else {
            if metrics.morsels_sent > u64::MAX - counters.morsels_sent || metrics.rows_sent
                > u64::MAX - counters.rows_sent {
                return false;
            }
            self.enter(
                key,
                NodeCounters {
                    morsels_sent: counters.morsels_sent + metrics.morsels_sent,
                    rows_sent: counters.rows_sent + metrics.rows_sent,
                    largest_morsel_sent: if counters.largest_morsel_sent
                        >= metrics.largest_morsel_sent {
                        counters.largest_morsel_sent
                    } else {
                        metrics.largest_morsel_sent
                    },
                    ..counters
                },
            );
        }
        true
    }

    /// Collects what one pipe carried, if it fits.
    fn collect_pipe(
        &mut self,
        pipe: LogicalPipe,
        numbers: &Vec<u64>,
        table: &PipeMetricsTable,
        Ghost(nodes): Ghost<Map<u64, NodeMetricsView>>,
    ) -> (fits: bool)
        requires
            old(self)@ == counters_of(nodes),
        ensures
            fits == pipe_all_fits(nodes, pipe, numbers@, table@),
            fits ==> final(self)@ == counters_of(with_pipe_all(nodes, pipe, numbers@, table@)),
    {
        let mut i: usize = 0;
        while i < numbers.len()
            invariant
                i <= numbers@.len(),
                pipe_all_fits(nodes, pipe, numbers@.take(i as int), table@),
                self@ == counters_of(with_pipe_all(nodes, pipe, numbers@.take(i as int), table@)),
            decreases numbers@.len() - i,
        {
            let number: u64 = numbers[i];
            let ghost next = numbers@.take(i + 1);
            let ghost before = with_pipe_all(nodes, pipe, numbers@.take(i as int), table@);
            proof {
                assert(next.drop_last() =~= numbers@.take(i as int));
                assert(next.last() == number);
            }
            let mut fits: bool = false;
            if let Some(metrics) = table.get(number) {
                proof {
                    let receiver = node_or_zero(before, pipe.receiver);
                    lemma_counters_entered(
                        before,
                        pipe.receiver,
                        NodeMetricsView {
                            counters: receiver.counters.with_received(*metrics),
                            ..receiver
                        },
                    );
                    let received = with_receiver(before, pipe, *metrics);
                    let sender = node_or_zero(received, pipe.sender);
                    lemma_counters_entered(
                        received,
                        pipe.sender,
                        NodeMetricsView { counters: sender.counters.with_sent(*metrics), ..sender },
                    );
                }
                fits = self.collect_end(pipe.receiver, metrics, true) && self.collect_end(
                    pipe.sender,
                    metrics,
                    false,
                );
                assert(fits == pipe_fits(before, pipe, *metrics));
            }
            if !fits {
                proof {
                    assert(!pipe_all_fits(nodes, pipe, next, table@));
                    if pipe_all_fits(nodes, pipe, numbers@, table@) {
                        lemma_pipe_fits_prefix(nodes, pipe, numbers@, table@, i + 1);
                    }
                }
                return false;
            }
            i = i + 1;
        }
        assert(numbers@.take(i as int) =~= numbers@);
        true
    }

    /// Collects what the pipes carried, if it fits.
    fn collect_pipes(
        &mut self,
        graph: &GraphMetrics,
        pipes: &LogicalPipes,
        table: &PipeMetricsTable,
        Ghost(at): Ghost<GraphMetricsView>,
    ) -> (fits: bool)
        requires
            graph.wf(),
            pipes.wf(),
            at.pipes == graph@.pipes,
            old(self)@ == counters_of(at.nodes),
        ensures
            fits == at.pipes_in_range(pipes@, table@),
    {
        let keys: Vec<u64> = graph.keys_of(Collected::Pipes);
        proof {
            graph.lemma_wf();
            lemma_slot_order_distinct(at.pipes.dom(), keys@);
        }
        let mut i: usize = 0;
        while i < keys.len()
            invariant
                i <= keys@.len(),
                graph.wf(),
                graph@.wf(),
                pipes.wf(),
                at.pipes == graph@.pipes,
                is_slot_order(at.pipes.dom(), keys@),
                self@ == counters_of(
                    with_pipes(at.nodes, keys@.take(i as int), at.pipes, pipes@, table@),
                ),
                pipes_fit(at.nodes, keys@.take(i as int), at.pipes, pipes@, table@),
                forall|j: int|
                    0 <= j < i && at.pipes[#[trigger] keys@[j]].len() > 0 ==> pipes@.contains_key(
                        keys@[j],
                    ),
            decreases keys@.len() - i,
        {
            let key: u64 = keys[i];
            let ghost next = keys@.take(i + 1);
            let ghost before = with_pipes(at.nodes, keys@.take(i as int), at.pipes, pipes@, table@);
            proof {
                assert(keys@.contains(key));
                assert(at.pipes.dom().contains(key));
                assert(at.pipes.contains_key(key));
                assert(next.drop_last() =~= keys@.take(i as int));
                assert(next.last() == key);
            }
            if let Some(numbers) = graph.pipe_metrics_of(key) {
                if numbers.len() > 0 {
                    match pipes.get(key) {
                        None => {
                            return false;
                        },
                        Some(pipe) => {
                            if !self.collect_pipe(pipe, numbers, table, Ghost(before)) {
                                proof {
                                    assert(!pipes_fit(at.nodes, next, at.pipes, pipes@, table@));
                                    if pipes_fit(at.nodes, keys@, at.pipes, pipes@, table@) {
                                        lemma_pipes_fit_prefix(
                                            at.nodes,
                                            keys@,
                                            at.pipes,
                                            pipes@,
                                            table@,
                                            i + 1,
                                        );
                                    }
                                }
                                return false;
                            }
                        },
                    }
                }
            }
            i = i + 1;
        }
        proof {
            assert(keys@.take(i as int) =~= keys@);
            assert forall|key: u64| #[trigger]
                at.pipes.contains_key(key) && at.pipes[key].len() > 0 implies pipes@.contains_key(
                key,
            ) by {
                assert(at.pipes.dom().contains(key));
                let j = keys@.index_of(key);
                assert(keys@[j] == key);
            }
            assert forall|others: Seq<u64>|
                is_slot_order(at.pipes.dom(), others) implies #[trigger] pipes_fit(
                at.nodes,
                others,
                at.pipes,
                pipes@,
                table@,
            ) by {
                lemma_slot_order_unique(at.pipes.dom(), keys@, others);
            }
        }
        true
    }
}

/// The entries of other slots than that of `key`.
spec fn others(entries: Map<u64, NodeCounters>, key: u64) -> Map<u64, NodeCounters> {
    without_rivals(entries, key).remove(key)
}

fn zero() -> (counters: NodeCounters)
    ensures
        counters == NodeCounters::zero(),
{
    counters_now(&NodeMetrics::default())
}

fn counters_now(node: &NodeMetrics) -> (counters: NodeCounters)
    ensures
        counters == node.counters(),
{
    NodeCounters {
        total_polls: node.total_polls,
        total_stolen_polls: node.total_stolen_polls,
        total_poll_time_ns: node.total_poll_time_ns,
        max_poll_time_ns: node.max_poll_time_ns,
        poll_occupancy_ns: node.poll_occupancy_ns,
        total_poll_cpu_time_ns: node.total_poll_cpu_time_ns,
        total_state_updates: node.total_state_updates,
        total_state_update_time_ns: node.total_state_update_time_ns,
        max_state_update_time_ns: node.max_state_update_time_ns,
        morsels_sent: node.morsels_sent,
        rows_sent: node.rows_sent,
        largest_morsel_sent: node.largest_morsel_sent,
        morsels_received: node.morsels_received,
        rows_received: node.rows_received,
        largest_morsel_received: node.largest_morsel_received,
        io_total_active_ns: node.io_total_active_ns,
        io_total_bytes_requested: node.io_total_bytes_requested,
        io_total_bytes_received: node.io_total_bytes_received,
        io_total_bytes_sent: node.io_total_bytes_sent,
        state_update_in_progress: node.state_update_in_progress,
        num_running_tasks: node.num_running_tasks,
        done: node.done,
    }
}

/// The occupancy of each of the nodes.
fn occupancies(graph: &GraphMetrics, keys: &Vec<u64>, now: u64) -> (readings: Vec<Reading>)
    requires
        graph.wf(),
        is_slot_order(graph@.occupancy.dom(), keys@),
    ensures
        readings@.len() == keys@.len(),
        forall|i: int|
            0 <= i < keys@.len() ==> #[trigger] readings@[i] == Reading::Occupancy(
                graph@.occupancy[keys@[i]].reading(now),
            ),
{
    let mut readings: Vec<Reading> = Vec::new();
    let mut i: usize = 0;
    proof {
        graph.lemma_wf();
    }
    while i < keys.len()
        invariant
            i <= keys@.len(),
            graph.wf(),
            graph@.wf(),
            is_slot_order(graph@.occupancy.dom(), keys@),
            readings@.len() == i,
            forall|j: int|
                0 <= j < i ==> #[trigger] readings@[j] == Reading::Occupancy(
                    graph@.occupancy[keys@[j]].reading(now),
                ),
        decreases keys@.len() - i,
    {
        let key: u64 = keys[i];
        proof {
            assert(keys@.contains(key));
            assert(graph@.occupancy.dom().contains(key));
        }
        if let Some(timer) = graph.occupancy_of(key) {
            readings.push(Reading::Occupancy(timer.total_time_live_ns(now)));
        }
        i = i + 1;
    }
    readings
}

/// The reading of a node's input and output.
spec fn io_reading(io: IOMetrics, now: u64) -> Reading {
    Reading::Io {
        active_ns: io.io_timer.reading(now),
        requested: io.bytes_requested,
        received: io.bytes_received,
        sent: io.bytes_sent,
    }
}

/// The input and output of each of the nodes, if they all exist.
fn inputs_and_outputs(graph: &GraphMetrics, keys: &Vec<u64>, table: &IOMetricsTable, now: u64) -> (
    readings: Option<Vec<Reading>>)
    requires
        graph.wf(),
        is_slot_order(graph@.io.dom(), keys@),
    ensures
        match readings {
            Some(readings) => {
                &&& forall|key: u64| #[trigger]
                    graph@.io.contains_key(key) ==> table@.contains_key(graph@.io[key])
                &&& readings@.len() == keys@.len()
                &&& forall|i: int|
                    0 <= i < keys@.len() ==> #[trigger] readings@[i] == io_reading(
                        table@[graph@.io[keys@[i]]],
                        now,
                    )
            },
            None => exists|key: u64| #[trigger]
                graph@.io.contains_key(key) && !table@.contains_key(graph@.io[key]),
        },
{
    let mut readings: Vec<Reading> = Vec::new();
    let mut i: usize = 0;
    proof {
        graph.lemma_wf();
    }
    while i < keys.len()
        invariant
            i <= keys@.len(),
            graph.wf(),
            graph@.wf(),
            is_slot_order(graph@.io.dom(), keys@),
            readings@.len() == i,
            forall|j: int|
                0 <= j < i ==> table@.contains_key(graph@.io[#[trigger] keys@[j]]),
            forall|j: int|
                0 <= j < i ==> #[trigger] readings@[j] == io_reading(
                    table@[graph@.io[keys@[j]]],
                    now,
                ),
        decreases keys@.len() - i,
    {
        let key: u64 = keys[i];
        proof {
            assert(keys@.contains(key));
            assert(graph@.io.dom().contains(key));
            assert(graph@.io.contains_key(key));
        }
        if let Some(number) = graph.io_metrics(key) {
            match table.get(number) {
                Some(io) => {
                    readings.push(
                        Reading::Io {
                            active_ns: io.io_timer.total_time_live_ns(now),
                            requested: io.bytes_requested,
                            received: io.bytes_received,
                            sent: io.bytes_sent,
                        },
                    );
                },
                None => {
                    return None;
                },
            }
        }
        i = i + 1;
    }
    assert forall|key: u64| #[trigger] graph@.io.contains_key(key) implies table@.contains_key(
        graph@.io[key],
    ) by {
        assert(graph@.io.dom().contains(key));
        let j = keys@.index_of(key);
        assert(keys@[j] == key);
    }
    Some(readings)
}

/// Nothing to read of so many nodes.
fn nothing(n: usize) -> (readings: Vec<Reading>)
    ensures
        readings@.len() == n,
        forall|i: int| 0 <= i < n ==> #[trigger] readings@[i] == Reading::Custom,
{
    let mut readings: Vec<Reading> = Vec::new();
    let mut i: usize = 0;
    while i < n
        invariant
            i <= n,
            readings@.len() == i,
            forall|j: int| 0 <= j < i ==> #[trigger] readings@[j] == Reading::Custom,
        decreases n - i,
    {
        readings.push(Reading::Custom);
        i = i + 1;
    }
    readings
}

impl GraphMetrics {
    /// Whether [`GraphMetrics::flush`] can collect everything: all sums stay in
    /// range, no node's slot is in use for a newer one, and everything that is
    /// to be read exists.
    pub fn can_flush(
        &self,
        pipes: &LogicalPipes,
        tasks: &TaskMetricsTable,
        io: &IOMetricsTable,
        pipe_metrics: &PipeMetricsTable,
        now: u64,
    ) -> (can: bool)
        requires
            self.wf(),
            pipes.wf(),
        ensures
            can == self@.in_range(tasks@, io@, now, pipes@, pipe_metrics@),
    {
        let mut rehearsal = Rehearsal::new(self);
        if !rehearsal.collect_tasks(self, tasks) {
            return false;
        }
        let ghost first = self@.tasks_collected(tasks@);
        let keys: Vec<u64> = self.keys_of(Collected::Occupancy);
        let readings: Vec<Reading> = occupancies(self, &keys, now);
        let ghost change = |key: u64, node: NodeMetricsView|
            with_occupancy(node, first.occupancy[key], now);
        if !rehearsal.collect_readings(
            &keys,
            &readings,
            Ghost(first.nodes),
            Ghost(first.occupancy.dom()),
            Ghost(change),
        ) {
            return false;
        }
        let ghost second = first.occupancy_read(now);
        let keys: Vec<u64> = self.keys_of(Collected::Io);
        let readings: Vec<Reading> = match inputs_and_outputs(self, &keys, io, now) {
            Some(readings) => readings,
            None => {
                assert(!second.io_in_range(io@));
                return false;
            },
        };
        let ghost change = |key: u64, node: NodeMetricsView|
            with_io(node, io@[second.io[key]], now);
        if !rehearsal.collect_readings(
            &keys,
            &readings,
            Ghost(second.nodes),
            Ghost(second.io.dom()),
            Ghost(change),
        ) {
            return false;
        }
        let ghost third = second.io_read(io@, now);
        let keys: Vec<u64> = self.keys_of(Collected::Custom);
        let readings: Vec<Reading> = nothing(keys.len());
        let ghost change = |key: u64, node: NodeMetricsView| with_custom(node, third.custom[key]);
        if !rehearsal.collect_readings(
            &keys,
            &readings,
            Ghost(third.nodes),
            Ghost(third.custom.dom()),
            Ghost(change),
        ) {
            return false;
        }
        rehearsal.collect_pipes(self, pipes, pipe_metrics, Ghost(third.custom_read()))
    }
}

} // verus!
