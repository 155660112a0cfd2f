//! Metrics of all nodes of a graph.
//!
//! Nodes are known by the numbers of their slot-map keys. Where a slot is used
//! again, what a table knows of its newer version takes the place of what it
//! knew of the older one.

use crate::executor::task::{TaskMetrics, TaskMetricsTable};
use crate::io_metrics::{IOMetrics, IOMetricsTable};
use crate::live_timer::LiveTimer;
use crate::metrics::custom::CustomMetrics;
use crate::metrics::node::{InProgressTask, NodeCounters, NodeMetrics, PipeMetrics};
use crate::metrics::query::QueryMetrics;
use crate::node_table::NodeTable;
use crate::numbered::Numbered;
use crate::slots::{new_slots, slots_get, slots_insert, slots_len, SlotTable};
use vstd::prelude::*;

#[allow(unused_imports)]
use crate::keys::{admits, distinct_slots, entered, is_key, is_older, is_slot_order, lemma_known_key, lemma_slot_order_distinct, rivals, slot_of, version_of};
#[allow(unused_imports)]
use crate::metrics::custom::CustomMetricsView;
#[allow(unused_imports)]
use crate::metrics::node::NodeMetricsView;
#[allow(unused_imports)]
use crate::slots::{max_slots, slot_values};

verus! {

/// The nodes at the ends of a pipe.
#[derive(Clone, Copy, Debug, PartialEq, Eq, Structural)]
pub struct LogicalPipe {
    pub sender: u64,
    pub receiver: u64,
}

/// The pipes of a graph.
pub struct LogicalPipes {
    slots: SlotTable,
    pipes: Vec<LogicalPipe>,
}

impl View for LogicalPipes {
    type V = Map<u64, LogicalPipe>;

    closed spec fn view(&self) -> Map<u64, LogicalPipe> {
        slot_values(self.slots).map_values(|i: u64| self.pipes@[i as int])
    }
}

impl LogicalPipes {
    /// Each key has a pipe.
    pub closed spec fn wf(&self) -> bool {
        forall|key: u64| #[trigger]
            slot_values(self.slots).contains_key(key) ==> slot_values(self.slots)[key]
                < self.pipes@.len()
    }

    /// No pipes.
    pub fn new() -> (pipes: LogicalPipes)
        ensures
            pipes.wf(),
            pipes@ == Map::<u64, LogicalPipe>::empty(),
    {
        let pipes = LogicalPipes { slots: new_slots(), pipes: Vec::new() };
        assert(pipes@ =~= Map::<u64, LogicalPipe>::empty());
        pipes
    }

    /// Whether another pipe fits.
    pub fn has_room(&self) -> (room: bool)
        ensures
            room == (self@.dom().len() < max_slots()),
    {
        assert(self@.dom() =~= slot_values(self.slots).dom());
        slots_len(&self.slots) < 0xffff_fffe
    }

    /// Adds a pipe under a new key.
    pub fn insert(&mut self, pipe: LogicalPipe) -> (key: u64)
        requires
            old(self).wf(),
            old(self)@.dom().len() < max_slots(),
        ensures
            final(self).wf(),
            is_key(key),
            !old(self)@.contains_key(key),
            final(self)@ == old(self)@.insert(key, pipe),
    {
        assert(self@.dom() =~= slot_values(self.slots).dom());
        let position: usize = self.pipes.len();
        self.pipes.push(pipe);
        let key: u64 = slots_insert(&mut self.slots, position as u64);
        assert(self@ =~= old(self)@.insert(key, pipe));
        key
    }

    /// The pipe under `key`.
    pub fn get(&self, key: u64) -> (pipe: Option<LogicalPipe>)
        requires
            self.wf(),
            is_key(key),
        ensures
            pipe == (if self@.contains_key(key) {
                Some(self@[key])
            } else {
                None
            }),
    {
        match slots_get(&self.slots, key) {
            Some(position) => {
                assert(position < self.pipes.len());
                Some(self.pipes[position as usize])
            },
            None => None,
        }
    }
}

/// What all pipes between nodes carried, by the numbers of the metrics.
pub type PipeMetricsTable = Numbered<PipeMetrics>;

/// A table of what is known or collected, by node or by pipe.
#[derive(Clone, Copy, Debug, PartialEq, Eq, Structural)]
pub enum Collected {
    Nodes,
    Io,
    Custom,
    Tasks,
    Occupancy,
    Pipes,
}

/// Metrics of a query and its nodes, and what is still being collected.
pub struct GraphMetrics {
    query: QueryMetrics,
    node_metrics: NodeTable<NodeMetrics>,
    in_progress_io_metrics: NodeTable<u64>,
    in_progress_custom_metrics: NodeTable<CustomMetrics>,
    in_progress_task_metrics: NodeTable<Vec<InProgressTask>>,
    attributions: NodeTable<LiveTimer>,
    in_progress_pipe_metrics: NodeTable<Vec<u64>>,
}

/// The same tables, by node and, for `pipes`, by pipe: the nodes' metrics, the
/// numbers of their input and output metrics, their custom metrics, their tasks
/// in progress, their occupancy, and the numbers of pipe metrics to collect.
#[verifier::ext_equal]
pub struct GraphMetricsView {
    pub query: QueryMetrics,
    pub nodes: Map<u64, NodeMetricsView>,
    pub io: Map<u64, u64>,
    pub custom: Map<u64, CustomMetricsView>,
    pub tasks: Map<u64, Seq<InProgressTask>>,
    pub occupancy: Map<u64, LiveTimer>,
    pub pipes: Map<u64, Seq<u64>>,
}

spec fn node_views(table: Map<u64, NodeMetrics>) -> Map<u64, NodeMetricsView> {
    table.map_values(|m: NodeMetrics| m@)
}

spec fn custom_views(table: Map<u64, CustomMetrics>) -> Map<u64, CustomMetricsView> {
    table.map_values(|m: CustomMetrics| m@)
}

impl View for GraphMetrics {
    type V = GraphMetricsView;

    closed spec fn view(&self) -> GraphMetricsView {
        GraphMetricsView {
            query: self.query,
            nodes: node_views(self.node_metrics@),
            io: self.in_progress_io_metrics@,
            custom: custom_views(self.in_progress_custom_metrics@),
            tasks: self.in_progress_task_metrics@.map_values(|t: Vec<InProgressTask>| t@),
            occupancy: self.attributions@,
            pipes: self.in_progress_pipe_metrics@.map_values(|p: Vec<u64>| p@),
        }
    }
}

/// The value under `key`, or `otherwise`.
pub open spec fn get_or<V>(map: Map<u64, V>, key: u64, otherwise: V) -> V {
    if map.contains_key(key) {
        map[key]
    } else {
        otherwise
    }
}

/// The metrics of a node, which are zero where it has none.
pub open spec fn node_or_zero(nodes: Map<u64, NodeMetricsView>, key: u64) -> NodeMetricsView {
    get_or(nodes, key, NodeMetricsView::zero())
}

/// Whether one of `keys` is another version of the slot of `key`.
pub open spec fn displaced(keys: Set<u64>, key: u64) -> bool {
    exists|other: u64| #[trigger] keys.contains(other) && rivals(other, key)
}

/// The nodes' metrics with those of `keys` changed.
pub open spec fn updated(
    nodes: Map<u64, NodeMetricsView>,
    keys: Set<u64>,
    change: spec_fn(u64, NodeMetricsView) -> NodeMetricsView,
) -> Map<u64, NodeMetricsView> {
    Map::new(
        |key: u64| keys.contains(key) || nodes.contains_key(key) && !displaced(keys, key),
        |key: u64|
            if keys.contains(key) {
                change(key, node_or_zero(nodes, key))
            } else {
                nodes[key]
            },
    )
}

/// The nodes' table takes each of `keys`.
pub open spec fn admits_all(nodes: Map<u64, NodeMetricsView>, keys: Set<u64>) -> bool {
    forall|key: u64| #[trigger] keys.contains(key) ==> admits(nodes.dom(), key)
}

/// Counters with the new work of all the tasks folded in.
pub open spec fn fold_tasks(
    counters: NodeCounters,
    tasks: Seq<InProgressTask>,
    table: Map<u64, TaskMetrics>,
) -> NodeCounters
    decreases tasks.len(),
{
    if tasks.len() == 0 {
        counters
    } else {
        fold_tasks(counters, tasks.drop_last(), table).with_task(
            table[tasks.last().metrics],
            tasks.last().applied,
        )
    }
}

/// Folding the tasks in stays in range, and their metrics exist.
pub open spec fn tasks_fit(
    counters: NodeCounters,
    tasks: Seq<InProgressTask>,
    table: Map<u64, TaskMetrics>,
) -> bool
    decreases tasks.len(),
{
    tasks.len() == 0 || {
        &&& tasks_fit(counters, tasks.drop_last(), table)
        &&& table.contains_key(tasks.last().metrics)
        &&& fold_tasks(counters, tasks.drop_last(), table).fits_task(
            table[tasks.last().metrics],
            tasks.last().applied,
        )
    }
}

/// The tasks that stay in progress: all but those that an earlier flush has
/// seen done.
pub open spec fn kept_tasks(tasks: Seq<InProgressTask>, table: Map<u64, TaskMetrics>) -> Seq<
    InProgressTask,
>
    decreases tasks.len(),
{
    if tasks.len() == 0 {
        Seq::empty()
    } else if tasks.last().seen_done {
        kept_tasks(tasks.drop_last(), table)
    } else {
        kept_tasks(tasks.drop_last(), table).push(
            tasks.last().flushed(table[tasks.last().metrics]),
        )
    }
}

/// The counters before the tasks are counted anew.
pub open spec fn not_running(counters: NodeCounters) -> NodeCounters {
    NodeCounters { num_running_tasks: 0, ..counters }
}

/// The metrics of a node with its tasks collected.
pub open spec fn with_tasks(
    node: NodeMetricsView,
    tasks: Seq<InProgressTask>,
    table: Map<u64, TaskMetrics>,
) -> NodeMetricsView {
    NodeMetricsView { counters: fold_tasks(not_running(node.counters), tasks, table), ..node }
}

/// The metrics of a node with its occupancy read.
pub open spec fn with_occupancy(node: NodeMetricsView, timer: LiveTimer, now: u64) -> NodeMetricsView {
    NodeMetricsView {
        counters: NodeCounters {
            poll_occupancy_ns: timer.reading(now),
            ..node.counters
        },
        ..node
    }
}

/// The metrics of a node with its input and output read.
pub open spec fn with_io(node: NodeMetricsView, io: IOMetrics, now: u64) -> NodeMetricsView {
    NodeMetricsView { counters: node.counters.with_io(io, now), ..node }
}

/// The metrics of a node with its custom metrics read.
pub open spec fn with_custom(node: NodeMetricsView, custom: CustomMetricsView) -> NodeMetricsView {
    NodeMetricsView { custom: custom.snapshot(), ..node }
}

/// The nodes' metrics after one pipe was collected at the receiving end.
pub open spec fn with_receiver(
    nodes: Map<u64, NodeMetricsView>,
    pipe: LogicalPipe,
    metrics: PipeMetrics,
) -> Map<u64, NodeMetricsView> {
    let receiver = node_or_zero(nodes, pipe.receiver);
    entered(
        nodes,
        pipe.receiver,
        NodeMetricsView { counters: receiver.counters.with_received(metrics), ..receiver },
    )
}

/// The nodes' metrics after one pipe was collected at the sending end.
pub open spec fn with_sender(
    nodes: Map<u64, NodeMetricsView>,
    pipe: LogicalPipe,
    metrics: PipeMetrics,
) -> Map<u64, NodeMetricsView> {
    let sender = node_or_zero(nodes, pipe.sender);
    entered(
        nodes,
        pipe.sender,
        NodeMetricsView { counters: sender.counters.with_sent(metrics), ..sender },
    )
}

/// The nodes' metrics after one pipe was collected at both ends.
pub open spec fn with_pipe(
    nodes: Map<u64, NodeMetricsView>,
    pipe: LogicalPipe,
    metrics: PipeMetrics,
) -> Map<u64, NodeMetricsView> {
    with_sender(with_receiver(nodes, pipe, metrics), pipe, metrics)
}

/// The nodes' table takes both ends of the pipe, and collecting it stays in
/// range.
pub open spec fn pipe_fits(
    nodes: Map<u64, NodeMetricsView>,
    pipe: LogicalPipe,
    metrics: PipeMetrics,
) -> bool {
    let received = with_receiver(nodes, pipe, metrics);
    &&& admits(nodes.dom(), pipe.receiver)
    &&& node_or_zero(nodes, pipe.receiver).counters.fits_received(metrics)
    &&& admits(received.dom(), pipe.sender)
    &&& node_or_zero(received, pipe.sender).counters.fits_sent(metrics)
}

/// The nodes' metrics after the numbered metrics of one pipe were collected.
pub open spec fn with_pipe_all(
    nodes: Map<u64, NodeMetricsView>,
    pipe: LogicalPipe,
    numbers: Seq<u64>,
    table: Map<u64, PipeMetrics>,
) -> Map<u64, NodeMetricsView>
    decreases numbers.len(),
{
    if numbers.len() == 0 {
        nodes
    } else {
        with_pipe(
            with_pipe_all(nodes, pipe, numbers.drop_last(), table),
            pipe,
            table[numbers.last()],
        )
    }
}

/// Collecting all of them stays in range, and the metrics exist.
pub open spec fn pipe_all_fits(
    nodes: Map<u64, NodeMetricsView>,
    pipe: LogicalPipe,
    numbers: Seq<u64>,
    table: Map<u64, PipeMetrics>,
) -> bool
    decreases numbers.len(),
{
    numbers.len() == 0 || {
        &&& pipe_all_fits(nodes, pipe, numbers.drop_last(), table)
        &&& table.contains_key(numbers.last())
        &&& pipe_fits(
            with_pipe_all(nodes, pipe, numbers.drop_last(), table),
            pipe,
            table[numbers.last()],
        )
    }
}

/// The nodes' metrics after the pipes `keys` were collected in turn.
pub open spec fn with_pipes(
    nodes: Map<u64, NodeMetricsView>,
    keys: Seq<u64>,
    pending: Map<u64, Seq<u64>>,
    pipes: Map<u64, LogicalPipe>,
    table: Map<u64, PipeMetrics>,
) -> Map<u64, NodeMetricsView>
    decreases keys.len(),
{
    if keys.len() == 0 {
        nodes
    } else {
        with_pipe_all(
            with_pipes(nodes, keys.drop_last(), pending, pipes, table),
            pipes[keys.last()],
            pending[keys.last()],
            table,
        )
    }
}

/// Collecting the pipes `keys` in turn stays in range.
pub open spec fn pipes_fit(
    nodes: Map<u64, NodeMetricsView>,
    keys: Seq<u64>,
    pending: Map<u64, Seq<u64>>,
    pipes: Map<u64, LogicalPipe>,
    table: Map<u64, PipeMetrics>,
) -> bool
    decreases keys.len(),
{
    keys.len() == 0 || {
        &&& pipes_fit(nodes, keys.drop_last(), pending, pipes, table)
        &&& pipe_all_fits(
            with_pipes(nodes, keys.drop_last(), pending, pipes, table),
            pipes[keys.last()],
            pending[keys.last()],
            table,
        )
    }
}

impl GraphMetricsView {
    /// The keys in one of the tables.
    pub open spec fn keys(self, table: Collected) -> Set<u64> {
        match table {
            Collected::Nodes => self.nodes.dom(),
            Collected::Io => self.io.dom(),
            Collected::Custom => self.custom.dom(),
            Collected::Tasks => self.tasks.dom(),
            Collected::Occupancy => self.occupancy.dom(),
            Collected::Pipes => self.pipes.dom(),
        }
    }

    /// No metrics at all.
    pub open spec fn empty() -> GraphMetricsView {
        GraphMetricsView {
            query: QueryMetrics::zero(),
            nodes: Map::empty(),
            io: Map::empty(),
            custom: Map::empty(),
            tasks: Map::empty(),
            occupancy: Map::empty(),
            pipes: Map::empty(),
        }
    }

    /// No table holds two versions of one slot, and the custom metrics are well
    /// formed.
    pub open spec fn wf(self) -> bool {
        &&& distinct_slots(self.nodes.dom())
        &&& distinct_slots(self.io.dom())
        &&& distinct_slots(self.custom.dom())
        &&& distinct_slots(self.tasks.dom())
        &&& distinct_slots(self.occupancy.dom())
        &&& distinct_slots(self.pipes.dom())
        &&& forall|key: u64| #[trigger] self.custom.contains_key(key) ==> self.custom[key].wf()
    }

    /// The nodes' metrics after their tasks were collected.
    pub open spec fn tasks_collected(self, table: Map<u64, TaskMetrics>) -> GraphMetricsView {
        GraphMetricsView {
            nodes: updated(
                self.nodes,
                self.tasks.dom(),
                |key: u64, node: NodeMetricsView| with_tasks(node, self.tasks[key], table),
            ),
            tasks: self.tasks.map_values(|tasks: Seq<InProgressTask>| kept_tasks(tasks, table)),
            ..self
        }
    }

    /// The tasks can be collected.
    pub open spec fn tasks_in_range(self, table: Map<u64, TaskMetrics>) -> bool {
        &&& admits_all(self.nodes, self.tasks.dom())
        &&& forall|key: u64| #[trigger]
            self.tasks.contains_key(key) ==> tasks_fit(
                not_running(node_or_zero(self.nodes, key).counters),
                self.tasks[key],
                table,
            )
    }

    /// The nodes' metrics after their occupancy was read.
    pub open spec fn occupancy_read(self, now: u64) -> GraphMetricsView {
        GraphMetricsView {
            nodes: updated(
                self.nodes,
                self.occupancy.dom(),
                |key: u64, node: NodeMetricsView| with_occupancy(node, self.occupancy[key], now),
            ),
            ..self
        }
    }

    /// The nodes' metrics after their input and output was read.
    pub open spec fn io_read(self, table: Map<u64, IOMetrics>, now: u64) -> GraphMetricsView {
        GraphMetricsView {
            nodes: updated(
                self.nodes,
                self.io.dom(),
                |key: u64, node: NodeMetricsView| with_io(node, table[self.io[key]], now),
            ),
            ..self
        }
    }

    /// The nodes' input and output can be read.
    pub open spec fn io_in_range(self, table: Map<u64, IOMetrics>) -> bool {
        &&& admits_all(self.nodes, self.io.dom())
        &&& forall|key: u64| #[trigger]
            self.io.contains_key(key) ==> table.contains_key(self.io[key])
    }

    /// The nodes' metrics after their custom metrics were read.
    pub open spec fn custom_read(self) -> GraphMetricsView {
        GraphMetricsView {
            nodes: updated(
                self.nodes,
                self.custom.dom(),
                |key: u64, node: NodeMetricsView| with_custom(node, self.custom[key]),
            ),
            custom: self.custom.map_values(|custom: CustomMetricsView| custom.compact()),
            ..self
        }
    }

    /// The nodes' metrics after the pipes were collected in the order of `keys`.
    pub open spec fn pipes_collected(
        self,
        keys: Seq<u64>,
        pipes: Map<u64, LogicalPipe>,
        table: Map<u64, PipeMetrics>,
    ) -> GraphMetricsView {
        GraphMetricsView {
            nodes: with_pipes(self.nodes, keys, self.pipes, pipes, table),
            pipes: self.pipes.map_values(|numbers: Seq<u64>| Seq::<u64>::empty()),
            ..self
        }
    }

    /// The pipes can be collected: those that carried anything exist.
    pub open spec fn pipes_in_range(
        self,
        pipes: Map<u64, LogicalPipe>,
        table: Map<u64, PipeMetrics>,
    ) -> bool {
        &&& forall|key: u64| #[trigger]
            self.pipes.contains_key(key) && self.pipes[key].len() > 0 ==> pipes.contains_key(key)
        &&& forall|keys: Seq<u64>|
            is_slot_order(self.pipes.dom(), keys) ==> #[trigger] pipes_fit(
                self.nodes,
                keys,
                self.pipes,
                pipes,
                table,
            )
    }

    /// Everything before the pipes collected.
    pub open spec fn nodes_collected(
        self,
        tasks: Map<u64, TaskMetrics>,
        io: Map<u64, IOMetrics>,
        now: u64,
    ) -> GraphMetricsView {
        self.tasks_collected(tasks).occupancy_read(now).io_read(io, now).custom_read()
    }

    /// Everything can be collected: each table of nodes is taken in turn.
    pub open spec fn in_range(
        self,
        tasks: Map<u64, TaskMetrics>,
        io: Map<u64, IOMetrics>,
        now: u64,
        pipes: Map<u64, LogicalPipe>,
        pipe_metrics: Map<u64, PipeMetrics>,
    ) -> bool {
        let first = self.tasks_collected(tasks);
        let second = first.occupancy_read(now);
        let third = second.io_read(io, now);
        &&& self.tasks_in_range(tasks)
        &&& admits_all(first.nodes, first.occupancy.dom())
        &&& second.io_in_range(io)
        &&& admits_all(third.nodes, third.custom.dom())
        &&& third.custom_read().pipes_in_range(pipes, pipe_metrics)
    }
}

/// Folds the new work of a node's tasks in. A task that is still running is kept
/// so the next flush picks up what it does in the meantime. A task that reports
/// itself done is kept for one further flush, because its final poll is recorded
/// just after it is marked done.
fn flush_tasks_of(tasks: &mut Vec<InProgressTask>, node: &mut NodeMetrics, table: &TaskMetricsTable)
    requires
        tasks_fit(old(node).counters(), old(tasks)@, table@),
    ensures
        final(node).counters() == fold_tasks(old(node).counters(), old(tasks)@, table@),
        final(node).custom == old(node).custom,
        final(tasks)@ == kept_tasks(old(tasks)@, table@),
{
    let ghost all = tasks@;
    let ghost start = node.counters();
    let ghost custom = node.custom;
    let mut kept: Vec<InProgressTask> = Vec::new();
    let mut i: usize = 0;
    proof {
        assert(all.take(all.len() as int) =~= all);
    }
    while i < tasks.len()
        invariant
            i <= all.len(),
            tasks@ == all,
            tasks_fit(start, all, table@),
            node.counters() == fold_tasks(start, all.take(i as int), table@),
            node.custom == custom,
            kept@ == kept_tasks(all.take(i as int), table@),
        decreases all.len() - i,
    {
        proof {
            lemma_tasks_fit_prefix(start, all, table@, i + 1);
            assert(all.take(i + 1).drop_last() =~= all.take(i as int));
        }
        let mut task: InProgressTask = tasks[i];
        if let Some(metrics) = table.get(task.metrics) {
            node.add_task(&mut task, &metrics);
            // Released on the second flush that sees it done, not the first.
            let keep: bool = !task.seen_done;
            task.seen_done = metrics.done;
            if keep {
                kept.push(task);
            }
        }
        i = i + 1;
    }
    assert(all.take(i as int) =~= all);
    *tasks = kept;
}

pub(crate) proof fn lemma_tasks_fit_prefix(
    counters: NodeCounters,
    tasks: Seq<InProgressTask>,
    table: Map<u64, TaskMetrics>,
    n: int,
)
    requires
        tasks_fit(counters, tasks, table),
        0 <= n <= tasks.len(),
    ensures
        tasks_fit(counters, tasks.take(n), table),
    decreases tasks.len(),
{
    if n == tasks.len() {
        assert(tasks.take(n) =~= tasks);
    } else {
        lemma_tasks_fit_prefix(counters, tasks.drop_last(), table, n);
        assert(tasks.drop_last().take(n) =~= tasks.take(n));
    }
}

impl GraphMetrics {
    /// The invariant of the tables.
    pub closed spec fn wf(&self) -> bool {
        &&& self.node_metrics.wf()
        &&& self.in_progress_io_metrics.wf()
        &&& self.in_progress_custom_metrics.wf()
        &&& self.in_progress_task_metrics.wf()
        &&& self.attributions.wf()
        &&& self.in_progress_pipe_metrics.wf()
        &&& forall|key: u64| #[trigger]
            self.in_progress_custom_metrics@.contains_key(key)
                ==> self.in_progress_custom_metrics@[key]@.wf()
    }

    /// What the invariant says of the tables' contents.
    pub proof fn lemma_wf(&self)
        requires
            self.wf(),
        ensures
            self@.wf(),
    {
        self.node_metrics.lemma_distinct_slots();
        self.in_progress_io_metrics.lemma_distinct_slots();
        self.in_progress_custom_metrics.lemma_distinct_slots();
        self.in_progress_task_metrics.lemma_distinct_slots();
        self.attributions.lemma_distinct_slots();
        self.in_progress_pipe_metrics.lemma_distinct_slots();
        assert(self@.nodes.dom() =~= self.node_metrics@.dom());
        assert(self@.custom.dom() =~= self.in_progress_custom_metrics@.dom());
        assert(self@.tasks.dom() =~= self.in_progress_task_metrics@.dom());
        assert(self@.pipes.dom() =~= self.in_progress_pipe_metrics@.dom());
    }

    /// No metrics.
    pub fn new() -> (metrics: GraphMetrics)
        ensures
            metrics.wf(),
            metrics@ == GraphMetricsView::empty(),
    {
        let metrics = GraphMetrics {
            query: QueryMetrics::default(),
            node_metrics: NodeTable::new(),
            in_progress_io_metrics: NodeTable::new(),
            in_progress_custom_metrics: NodeTable::new(),
            in_progress_task_metrics: NodeTable::new(),
            attributions: NodeTable::new(),
            in_progress_pipe_metrics: NodeTable::new(),
        };
        assert(metrics@ =~= GraphMetricsView::empty());
        metrics
    }

    /// Whether one of the tables takes `key`.
    pub fn takes(&self, table: Collected, key: u64) -> (taken: bool)
        ensures
            taken == admits(self@.keys(table), key),
    {
        proof {
            assert(self@.nodes.dom() =~= self.node_metrics@.dom());
            assert(self@.custom.dom() =~= self.in_progress_custom_metrics@.dom());
            assert(self@.tasks.dom() =~= self.in_progress_task_metrics@.dom());
            assert(self@.pipes.dom() =~= self.in_progress_pipe_metrics@.dom());
        }
        match table {
            Collected::Nodes => self.node_metrics.takes(key),
            Collected::Io => self.in_progress_io_metrics.takes(key),
            Collected::Custom => self.in_progress_custom_metrics.takes(key),
            Collected::Tasks => self.in_progress_task_metrics.takes(key),
            Collected::Occupancy => self.attributions.takes(key),
            Collected::Pipes => self.in_progress_pipe_metrics.takes(key),
        }
    }

    /// The keys in one of the tables, in the order of their slots.
    pub(crate) fn keys_of(&self, table: Collected) -> (keys: Vec<u64>)
        ensures
            is_slot_order(self@.keys(table), keys@),
    {
        proof {
            assert(self@.nodes.dom() =~= self.node_metrics@.dom());
            assert(self@.custom.dom() =~= self.in_progress_custom_metrics@.dom());
            assert(self@.tasks.dom() =~= self.in_progress_task_metrics@.dom());
            assert(self@.pipes.dom() =~= self.in_progress_pipe_metrics@.dom());
        }
        match table {
            Collected::Nodes => self.node_metrics.keys(),
            Collected::Io => self.in_progress_io_metrics.keys(),
            Collected::Custom => self.in_progress_custom_metrics.keys(),
            Collected::Tasks => self.in_progress_task_metrics.keys(),
            Collected::Occupancy => self.attributions.keys(),
            Collected::Pipes => self.in_progress_pipe_metrics.keys(),
        }
    }

    /// The tasks of a node that has some in progress.
    pub(crate) fn tasks_of(&self, key: u64) -> (tasks: Option<&Vec<InProgressTask>>)
        requires
            self.wf(),
            is_key(key),
        ensures
            match tasks {
                Some(tasks) => self@.tasks.contains_key(key) && tasks@ == self@.tasks[key],
                None => !self@.tasks.contains_key(key),
            },
    {
        self.in_progress_task_metrics.get(key)
    }

    /// The numbers of the metrics of a pipe that are still to be collected.
    pub(crate) fn pipe_metrics_of(&self, key: u64) -> (numbers: Option<&Vec<u64>>)
        requires
            self.wf(),
            is_key(key),
        ensures
            match numbers {
                Some(numbers) => self@.pipes.contains_key(key) && numbers@ == self@.pipes[key],
                None => !self@.pipes.contains_key(key),
            },
    {
        self.in_progress_pipe_metrics.get(key)
    }

    /// The occupancy of a node, if it is being tracked.
    pub(crate) fn occupancy_of(&self, key: u64) -> (timer: Option<&LiveTimer>)
        requires
            self.wf(),
            is_key(key),
        ensures
            timer == (if self@.occupancy.contains_key(key) {
                Some(&self@.occupancy[key])
            } else {
                None
            }),
    {
        self.attributions.get(key)
    }

    /// Collects the metrics numbered `task_metrics` for a node from now on.
    pub fn add_task(&mut self, key: u64, task_metrics: u64)
        requires
            old(self).wf(),
            admits(old(self)@.tasks.dom(), key),
        ensures
            final(self).wf(),
            final(self)@ == (GraphMetricsView {
                tasks: entered(
                    old(self)@.tasks,
                    key,
                    get_or(old(self)@.tasks, key, Seq::empty()).push(
                        InProgressTask::fresh(task_metrics),
                    ),
                ),
                ..old(self)@
            }),
    {
        let ghost before = self@;
        assert(self.in_progress_task_metrics@.dom() =~= before.tasks.dom());
        self.in_progress_task_metrics.or_insert(key, Vec::new()).push(
            InProgressTask::new(task_metrics),
        );
        assert(self@ =~= (GraphMetricsView {
            tasks: entered(
                before.tasks,
                key,
                get_or(before.tasks, key, Seq::empty()).push(InProgressTask::fresh(task_metrics)),
            ),
            ..before
        }));
    }

    /// Counts the occupancy of a node from its first use on.
    pub fn track_occupancy(&mut self, key: u64)
        requires
            old(self).wf(),
            admits(old(self)@.occupancy.dom(), key),
        ensures
            final(self).wf(),
            final(self)@ == (GraphMetricsView {
                occupancy: entered(
                    old(self)@.occupancy,
                    key,
                    get_or(old(self)@.occupancy, key, LiveTimer::fresh()),
                ),
                ..old(self)@
            }),
    {
        self.attributions.or_insert(key, LiveTimer::new());
    }

    /// The occupancy of a node that is being tracked.
    pub fn occupancy_mut(&mut self, key: u64) -> (timer: &mut LiveTimer)
        requires
            old(self).wf(),
            old(self)@.occupancy.contains_key(key),
        ensures
            *timer == old(self)@.occupancy[key],
            final(self).wf(),
            final(self)@ == (GraphMetricsView {
                occupancy: old(self)@.occupancy.insert(key, *final(timer)),
                ..old(self)@
            }),
    {
        proof {
            self.lemma_wf();
            assert(self@.occupancy.dom().contains(key));
        }
        self.attributions.get_mut(key)
    }

    /// Whether the occupancy of a node is being tracked.
    pub fn tracks_occupancy(&self, key: u64) -> (known: bool)
        requires
            is_key(key),
        ensures
            known == self@.occupancy.contains_key(key),
    {
        self.attributions.contains(key)
    }

    /// Collects the metrics numbered `pipe_metrics` of a pipe at the next flush.
    pub fn add_pipe(&mut self, key: u64, pipe_metrics: u64)
        requires
            old(self).wf(),
            admits(old(self)@.pipes.dom(), key),
        ensures
            final(self).wf(),
            final(self)@ == (GraphMetricsView {
                pipes: entered(
                    old(self)@.pipes,
                    key,
                    get_or(old(self)@.pipes, key, Seq::empty()).push(pipe_metrics),
                ),
                ..old(self)@
            }),
    {
        let ghost before = self@;
        assert(self.in_progress_pipe_metrics@.dom() =~= before.pipes.dom());
        self.in_progress_pipe_metrics.or_insert(key, Vec::new()).push(pipe_metrics);
        assert(self@ =~= (GraphMetricsView {
            pipes: entered(
                before.pipes,
                key,
                get_or(before.pipes, key, Seq::empty()).push(pipe_metrics),
            ),
            ..before
        }));
    }

    /// The metrics of a node, which are zero at first use.
    fn node_mut(&mut self, key: u64) -> (node: &mut NodeMetrics)
        requires
            old(self).wf(),
            admits(old(self)@.nodes.dom(), key),
        ensures
            node@ == node_or_zero(old(self)@.nodes, key),
            final(self).wf(),
            final(self)@ == (GraphMetricsView {
                nodes: entered(old(self)@.nodes, key, final(node)@),
                ..old(self)@
            }),
    {
        let ghost before = self@;
        let ghost table = self.node_metrics@;
        proof {
            assert(self.node_metrics@.dom() =~= before.nodes.dom());
            assert forall|m: NodeMetrics| #[trigger] node_views(entered(table, key, m)) == entered(
                before.nodes,
                key,
                m@,
            ) by {
                assert(node_views(entered(table, key, m)) =~= entered(before.nodes, key, m@));
            }
        }
        self.node_metrics.or_insert(key, NodeMetrics::default())
    }

    /// Takes note that the state of a node is being updated.
    pub fn start_state_update(&mut self, key: u64)
        requires
            old(self).wf(),
            admits(old(self)@.nodes.dom(), key),
        ensures
            final(self).wf(),
            ({
                let node = node_or_zero(old(self)@.nodes, key);
                final(self)@ == (GraphMetricsView {
                    nodes: entered(
                        old(self)@.nodes,
                        key,
                        NodeMetricsView {
                            counters: NodeCounters {
                                state_update_in_progress: true,
                                ..node.counters
                            },
                            ..node
                        },
                    ),
                    ..old(self)@
                })
            }),
    {
        self.node_mut(key).start_state_update();
    }

    /// Takes note that the state of a node was updated, in `time_ns`.
    pub fn stop_state_update(&mut self, key: u64, time_ns: u64, is_done: bool)
        requires
            old(self).wf(),
            old(self)@.nodes.contains_key(key),
            old(self)@.nodes[key].counters.total_state_updates < u64::MAX,
            old(self)@.nodes[key].counters.total_state_update_time_ns + time_ns <= u64::MAX,
        ensures
            final(self).wf(),
            final(self)@ == (GraphMetricsView {
                nodes: old(self)@.nodes.insert(
                    key,
                    NodeMetricsView {
                        counters: old(self)@.nodes[key].counters.state_updated(time_ns, is_done),
                        ..old(self)@.nodes[key]
                    },
                ),
                ..old(self)@
            }),
    {
        proof {
            self.lemma_wf();
            lemma_known_key(self@.nodes, key);
        }
        self.node_mut(key).stop_state_update(time_ns, is_done);
    }

    fn flush_tasks(&mut self, table: &TaskMetricsTable)
        requires
            old(self).wf(),
            old(self)@.tasks_in_range(table@),
        ensures
            final(self).wf(),
            final(self)@ == old(self)@.tasks_collected(table@),
    {
        let ghost before = self@;
        let ghost change = |key: u64, node: NodeMetricsView|
            with_tasks(node, before.tasks[key], table@);
        let keys: Vec<u64> = self.in_progress_task_metrics.keys();
        proof {
            self.lemma_wf();
            assert(self.in_progress_task_metrics@.dom() =~= before.tasks.dom());
            lemma_slot_order_distinct(before.tasks.dom(), keys@);
            lemma_updated_none(before.nodes, keys@, change);
        }
        let mut i: usize = 0;
        while i < keys.len()
            invariant
                i <= keys@.len(),
                self.wf(),
                before.wf(),
                before.tasks_in_range(table@),
                is_slot_order(before.tasks.dom(), keys@),
                keys@.no_duplicates(),
                change == (|key: u64, node: NodeMetricsView|
                    with_tasks(node, before.tasks[key], table@)),
                self@ == (GraphMetricsView { nodes: self@.nodes, tasks: self@.tasks, ..before }),
                self@.nodes == updated(before.nodes, keys@.take(i as int).to_set(), change),
                self@.tasks.dom() == before.tasks.dom(),
                forall|key: u64| #[trigger]
                    before.tasks.contains_key(key) ==> self@.tasks[key] == (if keys@.take(
                        i as int,
                    ).to_set().contains(key) {
                        kept_tasks(before.tasks[key], table@)
                    } else {
                        before.tasks[key]
                    }),
            decreases keys@.len() - i,
        {
            let key: u64 = keys[i];
            let ghost middle = self@;
            proof {
                assert(keys@.contains(key));
                assert(before.tasks.dom().contains(key));
                assert(before.tasks.contains_key(key));
                lemma_updated_step(before.nodes, before.tasks.dom(), keys@, i as int, change);
                assert(middle.tasks[key] == before.tasks[key]);
                assert(self.node_metrics@.dom() =~= middle.nodes.dom());
                assert(self.in_progress_task_metrics@.dom() =~= middle.tasks.dom());
            }
            let node = self.node_metrics.or_insert(key, NodeMetrics::default());
            node.num_running_tasks = 0;
            let tasks = self.in_progress_task_metrics.get_mut(key);
            flush_tasks_of(tasks, node, table);
            i = i + 1;
            proof {
                assert(self@.nodes =~= entered(
                    middle.nodes,
                    key,
                    change(key, node_or_zero(before.nodes, key)),
                ));
                assert(self@.tasks =~= middle.tasks.insert(
                    key,
                    kept_tasks(before.tasks[key], table@),
                ));
                assert(self@.tasks.dom() =~= before.tasks.dom());
                assert(self@ =~= (GraphMetricsView {
                    nodes: self@.nodes,
                    tasks: self@.tasks,
                    ..before
                }));
            }
        }
        assert(keys@.take(i as int) =~= keys@);
        assert(self@ =~= before.tasks_collected(table@));
    }

    fn flush_occupancy(&mut self, now: u64)
        requires
            old(self).wf(),
            admits_all(old(self)@.nodes, old(self)@.occupancy.dom()),
        ensures
            final(self).wf(),
            final(self)@ == old(self)@.occupancy_read(now),
    {
        let ghost before = self@;
        let ghost change = |key: u64, node: NodeMetricsView|
            with_occupancy(node, before.occupancy[key], now);
        let keys: Vec<u64> = self.attributions.keys();
        proof {
            self.lemma_wf();
            lemma_slot_order_distinct(before.occupancy.dom(), keys@);
            lemma_updated_none(before.nodes, keys@, change);
        }
        let mut i: usize = 0;
        while i < keys.len()
            invariant
                i <= keys@.len(),
                self.wf(),
                before.wf(),
                admits_all(before.nodes, before.occupancy.dom()),
                is_slot_order(before.occupancy.dom(), keys@),
                keys@.no_duplicates(),
                change == (|key: u64, node: NodeMetricsView|
                    with_occupancy(node, before.occupancy[key], now)),
                self@ == (GraphMetricsView { nodes: self@.nodes, ..before }),
                self@.nodes == updated(before.nodes, keys@.take(i as int).to_set(), change),
            decreases keys@.len() - i,
        {
            let key: u64 = keys[i];
            proof {
                assert(keys@.contains(key));
                assert(before.occupancy.dom().contains(key));
                assert(before.occupancy.contains_key(key));
                lemma_updated_step(before.nodes, before.occupancy.dom(), keys@, i as int, change);
            }
            let mut occupancy_ns: u64 = 0;
            if let Some(timer) = self.attributions.get(key) {
                // Cumulative, so assigned rather than added.
                occupancy_ns = timer.total_time_live_ns(now);
            }
            self.node_mut(key).poll_occupancy_ns = occupancy_ns;
            i = i + 1;
        }
        assert(keys@.take(i as int) =~= keys@);
        assert(self@ =~= before.occupancy_read(now));
    }

    fn flush_io(&mut self, table: &IOMetricsTable, now: u64)
        requires
            old(self).wf(),
            old(self)@.io_in_range(table@),
        ensures
            final(self).wf(),
            final(self)@ == old(self)@.io_read(table@, now),
    {
        let ghost before = self@;
        let ghost change = |key: u64, node: NodeMetricsView|
            with_io(node, table@[before.io[key]], now);
        let keys: Vec<u64> = self.in_progress_io_metrics.keys();
        proof {
            self.lemma_wf();
            lemma_slot_order_distinct(before.io.dom(), keys@);
            lemma_updated_none(before.nodes, keys@, change);
        }
        let mut i: usize = 0;
        while i < keys.len()
            invariant
                i <= keys@.len(),
                self.wf(),
                before.wf(),
                before.io_in_range(table@),
                is_slot_order(before.io.dom(), keys@),
                keys@.no_duplicates(),
                change == (|key: u64, node: NodeMetricsView|
                    with_io(node, table@[before.io[key]], now)),
                self@ == (GraphMetricsView { nodes: self@.nodes, ..before }),
                self@.nodes == updated(before.nodes, keys@.take(i as int).to_set(), change),
            decreases keys@.len() - i,
        {
            let key: u64 = keys[i];
            proof {
                assert(keys@.contains(key));
                assert(before.io.dom().contains(key));
                assert(before.io.contains_key(key));
                lemma_updated_step(before.nodes, before.io.dom(), keys@, i as int, change);
            }
            if let Some(number) = self.in_progress_io_metrics.get(key) {
                if let Some(io) = table.get(*number) {
                    self.node_mut(key).read_io(io, now);
                }
            }
            i = i + 1;
        }
        assert(keys@.take(i as int) =~= keys@);
        assert(self@ =~= before.io_read(table@, now));
    }

    fn flush_custom(&mut self)
        requires
            old(self).wf(),
            admits_all(old(self)@.nodes, old(self)@.custom.dom()),
        ensures
            final(self).wf(),
            final(self)@ == old(self)@.custom_read(),
    {
        let ghost before = self@;
        let ghost change = |key: u64, node: NodeMetricsView| with_custom(node, before.custom[key]);
        let keys: Vec<u64> = self.in_progress_custom_metrics.keys();
        proof {
            self.lemma_wf();
            assert(self.in_progress_custom_metrics@.dom() =~= before.custom.dom());
            lemma_slot_order_distinct(before.custom.dom(), keys@);
            lemma_updated_none(before.nodes, keys@, change);
        }
        let mut i: usize = 0;
        while i < keys.len()
            invariant
                i <= keys@.len(),
                self.wf(),
                before.wf(),
                admits_all(before.nodes, before.custom.dom()),
                is_slot_order(before.custom.dom(), keys@),
                keys@.no_duplicates(),
                change == (|key: u64, node: NodeMetricsView|
                    with_custom(node, before.custom[key])),
                self@ == (GraphMetricsView { nodes: self@.nodes, custom: self@.custom, ..before }),
                self@.nodes == updated(before.nodes, keys@.take(i as int).to_set(), change),
                self@.custom.dom() == before.custom.dom(),
                forall|key: u64| #[trigger]
                    before.custom.contains_key(key) ==> self@.custom[key] == (if keys@.take(
                        i as int,
                    ).to_set().contains(key) {
                        before.custom[key].compact()
                    } else {
                        before.custom[key]
                    }),
            decreases keys@.len() - i,
        {
            let key: u64 = keys[i];
            let ghost middle = self@;
            proof {
                assert(keys@.contains(key));
                assert(before.custom.dom().contains(key));
                assert(before.custom.contains_key(key));
                lemma_updated_step(before.nodes, before.custom.dom(), keys@, i as int, change);
                assert(self@.custom.contains_key(key));
                assert(self.node_metrics@.dom() =~= middle.nodes.dom());
                assert(self.in_progress_custom_metrics@.contains_key(key));
            }
            let node = self.node_metrics.or_insert(key, NodeMetrics::default());
            let custom = self.in_progress_custom_metrics.get_mut(key);
            node.custom = custom.snapshot_and_compact();
            i = i + 1;
            proof {
                assert(self@.nodes =~= entered(
                    middle.nodes,
                    key,
                    change(key, node_or_zero(before.nodes, key)),
                ));
                assert(self@.custom =~= middle.custom.insert(key, before.custom[key].compact()));
                assert(self@.custom.dom() =~= before.custom.dom());
                assert(self@ =~= (GraphMetricsView {
                    nodes: self@.nodes,
                    custom: self@.custom,
                    ..before
                }));
            }
        }
        assert(keys@.take(i as int) =~= keys@);
        assert(self@ =~= before.custom_read());
    }

    fn flush_pipe(&mut self, pipe: LogicalPipe, numbers: &Vec<u64>, table: &PipeMetricsTable)
        requires
            old(self).wf(),
            pipe_all_fits(old(self)@.nodes, pipe, numbers@, table@),
        ensures
            final(self).wf(),
            final(self)@ == (GraphMetricsView {
                nodes: with_pipe_all(old(self)@.nodes, pipe, numbers@, table@),
                ..old(self)@
            }),
    {
        let ghost before = self@;
        let mut i: usize = 0;
        assert(numbers@.take(numbers@.len() as int) =~= numbers@);
        while i < numbers.len()
            invariant
                i <= numbers@.len(),
                self.wf(),
                pipe_all_fits(before.nodes, pipe, numbers@, table@),
                self@ == (GraphMetricsView {
                    nodes: with_pipe_all(before.nodes, pipe, numbers@.take(i as int), table@),
                    ..before
                }),
            decreases numbers@.len() - i,
        {
            proof {
                lemma_pipe_fits_prefix(before.nodes, pipe, numbers@, table@, i + 1);
                assert(numbers@.take(i + 1).drop_last() =~= numbers@.take(i as int));
            }
            if let Some(metrics) = table.get(numbers[i]) {
                self.node_mut(pipe.receiver).add_recv_metrics(metrics);
                self.node_mut(pipe.sender).add_send_metrics(metrics);
            }
            i = i + 1;
        }
        assert(numbers@.take(i as int) =~= numbers@);
    }

    fn flush_pipes(&mut self, pipes: &LogicalPipes, table: &PipeMetricsTable) -> (keys: Ghost<
        Seq<u64>,
    >)
        requires
            old(self).wf(),
            pipes.wf(),
            old(self)@.pipes_in_range(pipes@, table@),
        ensures
            final(self).wf(),
            is_slot_order(old(self)@.pipes.dom(), keys@),
            final(self)@ == old(self)@.pipes_collected(keys@, pipes@, table@),
    {
        let ghost before = self@;
        let keys: Vec<u64> = self.in_progress_pipe_metrics.keys();
        proof {
            self.lemma_wf();
            assert(self.in_progress_pipe_metrics@.dom() =~= before.pipes.dom());
            lemma_slot_order_distinct(before.pipes.dom(), keys@);
            assert(keys@.take(keys@.len() as int) =~= keys@);
            assert(pipes_fit(before.nodes, keys@, before.pipes, pipes@, table@));
        }
        let mut i: usize = 0;
        while i < keys.len()
            invariant
                i <= keys@.len(),
                self.wf(),
                pipes.wf(),
                before.wf(),
                before.pipes_in_range(pipes@, table@),
                is_slot_order(before.pipes.dom(), keys@),
                keys@.no_duplicates(),
                pipes_fit(before.nodes, keys@, before.pipes, pipes@, table@),
                self@ == (GraphMetricsView { nodes: self@.nodes, pipes: self@.pipes, ..before }),
                self@.nodes == with_pipes(
                    before.nodes,
                    keys@.take(i as int),
                    before.pipes,
                    pipes@,
                    table@,
                ),
                self@.pipes.dom() == before.pipes.dom(),
                forall|key: u64| #[trigger]
                    before.pipes.contains_key(key) ==> self@.pipes[key] == (if keys@.take(
                        i as int,
                    ).to_set().contains(key) {
                        Seq::<u64>::empty()
                    } else {
                        before.pipes[key]
                    }),
            decreases keys@.len() - i,
        {
            let key: u64 = keys[i];
            let ghost middle = self@;
            let ghost done = keys@.take(i as int);
            let mut numbers: Vec<u64> = Vec::new();
            proof {
                assert(keys@.contains(key));
                assert(before.pipes.dom().contains(key));
                assert(before.pipes.contains_key(key));
                lemma_pipes_fit_prefix(before.nodes, keys@, before.pipes, pipes@, table@, i + 1);
                assert(keys@.take(i + 1).drop_last() =~= done);
                assert(keys@.take(i + 1) =~= done.push(key));
                lemma_push_set(done, key);
                assert(!done.to_set().contains(key)) by {
                    if done.contains(key) {
                        let j = done.index_of(key);
                        assert(keys@[j] == keys@[i as int]);
                    }
                }
                assert(self@.pipes.contains_key(key));
            }
            std::mem::swap(&mut numbers, self.in_progress_pipe_metrics.get_mut(key));
            proof {
                assert(self@.pipes =~= middle.pipes.insert(key, Seq::empty()));
                assert(self@.pipes.dom() =~= before.pipes.dom());
                assert(numbers@ == before.pipes[key]);
            }
            if numbers.len() > 0 {
                if let Some(pipe) = pipes.get(key) {
                    self.flush_pipe(pipe, &numbers, table);
                }
            }
            i = i + 1;
            proof {
                assert(self@ =~= (GraphMetricsView {
                    nodes: self@.nodes,
                    pipes: self@.pipes,
                    ..before
                }));
            }
        }
        proof {
            assert(keys@.take(i as int) =~= keys@);
            assert(self@ =~= before.pipes_collected(keys@, pipes@, table@));
        }
        Ghost(keys@)
    }

    /// Collects what happened since the last flush.
    pub fn flush(
        &mut self,
        pipes: &LogicalPipes,
        tasks: &TaskMetricsTable,
        io: &IOMetricsTable,
        pipe_metrics: &PipeMetricsTable,
        now: u64,
    )
        requires
            old(self).wf(),
            pipes.wf(),
            old(self)@.in_range(tasks@, io@, now, pipes@, pipe_metrics@),
        ensures
            final(self).wf(),
            exists|keys: Seq<u64>|
                is_slot_order(old(self)@.pipes.dom(), keys) && final(self)@ == #[trigger] old(
                    self,
                )@.nodes_collected(tasks@, io@, now).pipes_collected(
                    keys,
                    pipes@,
                    pipe_metrics@,
                ),
    {
        self.flush_tasks(tasks);
        self.flush_occupancy(now);
        self.flush_io(io, now);
        self.flush_custom();
        let ghost collected = self@;
        let keys = self.flush_pipes(pipes, pipe_metrics);
        proof {
            assert(collected == old(self)@.nodes_collected(tasks@, io@, now));
            assert(collected.pipes.dom() == old(self)@.pipes.dom());
            assert(self@ == old(self)@.nodes_collected(tasks@, io@, now).pipes_collected(
                keys@,
                pipes@,
                pipe_metrics@,
            ));
        }
    }

    /// Time belonging to the query as a whole.
    pub fn query(&self) -> (query: &QueryMetrics)
        ensures
            *query == self@.query,
    {
        &self.query
    }

    /// Time belonging to the query as a whole.
    pub fn query_mut(&mut self) -> (query: &mut QueryMetrics)
        requires
            old(self).wf(),
        ensures
            *query == old(self)@.query,
            final(self).wf(),
            final(self)@ == (GraphMetricsView { query: *final(query), ..old(self)@ }),
    {
        &mut self.query
    }

    /// The metrics of a node, as of the last flush.
    pub fn get(&self, key: u64) -> (node: Option<&NodeMetrics>)
        requires
            self.wf(),
            is_key(key),
        ensures
            match node {
                Some(node) => self@.nodes.contains_key(key) && node@ == self@.nodes[key],
                None => !self@.nodes.contains_key(key),
            },
    {
        self.node_metrics.get(key)
    }

    /// The metrics of all nodes, in the order of their slots.
    pub fn iter(&self) -> (nodes: Vec<(u64, &NodeMetrics)>)
        requires
            self.wf(),
        ensures
            is_slot_order(
                self@.nodes.dom(),
                nodes@.map_values(|entry: (u64, &NodeMetrics)| entry.0),
            ),
            forall|i: int|
                0 <= i < nodes@.len() ==> (#[trigger] nodes@[i]).1@ == self@.nodes[nodes@[i].0],
    {
        let keys: Vec<u64> = self.node_metrics.keys();
        let mut nodes: Vec<(u64, &NodeMetrics)> = Vec::new();
        proof {
            self.lemma_wf();
            assert(self.node_metrics@.dom() =~= self@.nodes.dom());
        }
        let mut i: usize = 0;
        while i < keys.len()
            invariant
                i <= keys@.len(),
                self.wf(),
                self@.wf(),
                is_slot_order(self@.nodes.dom(), keys@),
                nodes@.len() == i,
                forall|j: int| 0 <= j < i ==> (#[trigger] nodes@[j]).0 == keys@[j],
                forall|j: int|
                    0 <= j < i ==> (#[trigger] nodes@[j]).1@ == self@.nodes[nodes@[j].0],
            decreases keys@.len() - i,
        {
            let key: u64 = keys[i];
            proof {
                assert(keys@.contains(key));
                assert(self@.nodes.dom().contains(key));
            }
            if let Some(node) = self.get(key) {
                nodes.push((key, node));
            }
            i = i + 1;
        }
        assert(nodes@.map_values(|entry: (u64, &NodeMetrics)| entry.0) =~= keys@);
        nodes
    }

    /// The number of a node's input and output metrics, if it has any.
    pub fn io_metrics(&self, key: u64) -> (number: Option<u64>)
        requires
            self.wf(),
            is_key(key),
        ensures
            number == (if self@.io.contains_key(key) {
                Some(self@.io[key])
            } else {
                None
            }),
    {
        match self.in_progress_io_metrics.get(key) {
            Some(number) => Some(*number),
            None => None,
        }
    }

    /// Registers a node's input and output metrics by their number, once.
    pub fn register_io_metrics(&mut self, key: u64, number: u64)
        requires
            old(self).wf(),
            admits(old(self)@.io.dom(), key),
            old(self)@.io.contains_key(key) ==> old(self)@.io[key] == number,
        ensures
            final(self).wf(),
            final(self)@ == (GraphMetricsView {
                io: entered(old(self)@.io, key, number),
                ..old(self)@
            }),
    {
        self.in_progress_io_metrics.or_insert(key, number);
    }

    /// The custom metrics of a node, if it has any.
    pub fn custom_metrics(&self, key: u64) -> (custom: Option<&CustomMetrics>)
        requires
            self.wf(),
            is_key(key),
        ensures
            match custom {
                Some(custom) => self@.custom.contains_key(key) && custom@ == self@.custom[key]
                    && custom@.wf(),
                None => !self@.custom.contains_key(key),
            },
    {
        self.in_progress_custom_metrics.get(key)
    }

    /// Takes the custom metrics of a node, of which there are none at first use.
    pub fn take_custom_metrics(&mut self, key: u64) -> (custom: CustomMetrics)
        requires
            old(self).wf(),
            admits(old(self)@.custom.dom(), key),
        ensures
            final(self).wf(),
            custom@.wf(),
            custom@ == get_or(old(self)@.custom, key, no_custom()),
            final(self)@ == (GraphMetricsView {
                custom: entered(old(self)@.custom, key, no_custom()),
                ..old(self)@
            }),
    {
        let ghost before = self@;
        assert(self.in_progress_custom_metrics@.dom() =~= before.custom.dom());
        let mut taken = CustomMetrics::new();
        std::mem::swap(
            &mut taken,
            self.in_progress_custom_metrics.or_insert(key, CustomMetrics::new()),
        );
        assert(self@ =~= (GraphMetricsView {
            custom: entered(before.custom, key, no_custom()),
            ..before
        }));
        taken
    }

    /// Puts the custom metrics of a node back.
    pub fn put_custom_metrics(&mut self, key: u64, custom: CustomMetrics)
        requires
            old(self).wf(),
            old(self)@.custom.contains_key(key),
            custom@.wf(),
        ensures
            final(self).wf(),
            final(self)@ == (GraphMetricsView {
                custom: old(self)@.custom.insert(key, custom@),
                ..old(self)@
            }),
    {
        let ghost before = self@;
        let ghost put = custom@;
        proof {
            self.lemma_wf();
            assert(self@.custom.dom().contains(key));
        }
        let slot = self.in_progress_custom_metrics.get_mut(key);
        *slot = custom;
        assert(self@ =~= (GraphMetricsView { custom: before.custom.insert(key, put), ..before }));
    }
}

impl Default for GraphMetrics {
    fn default() -> (metrics: Self)
        ensures
            metrics.wf(),
            metrics@ == GraphMetricsView::empty(),
    {
        GraphMetrics::new()
    }
}

/// No custom metrics.
pub open spec fn no_custom() -> CustomMetricsView {
    CustomMetricsView { metrics: Seq::empty(), next_cell: 0 }
}

pub(crate) proof fn lemma_push_set(done: Seq<u64>, key: u64)
    ensures
        done.push(key).to_set() == done.to_set().insert(key),
{
    let next = done.push(key);
    assert forall|k: u64| next.to_set().contains(k) <==> done.to_set().insert(key).contains(k) by {
        if done.contains(k) {
            let j = done.index_of(k);
            assert(next[j] == k);
        }
        if next.contains(k) && k != key {
            let j = next.index_of(k);
            assert(done[j] == k);
        }
        assert(next[done.len() as int] == key);
    }
    assert(next.to_set() =~= done.to_set().insert(key));
}

pub(crate) proof fn lemma_updated_none(
    nodes: Map<u64, NodeMetricsView>,
    keys: Seq<u64>,
    change: spec_fn(u64, NodeMetricsView) -> NodeMetricsView,
)
    ensures
        updated(nodes, keys.take(0).to_set(), change) == nodes,
        keys.take(0).to_set() == Set::<u64>::empty(),
{
    assert(keys.take(0).to_set() =~= Set::empty());
    assert(updated(nodes, keys.take(0).to_set(), change) =~= nodes);
}

pub(crate) proof fn lemma_updated_step(
    nodes: Map<u64, NodeMetricsView>,
    all: Set<u64>,
    keys: Seq<u64>,
    i: int,
    change: spec_fn(u64, NodeMetricsView) -> NodeMetricsView,
)
    requires
        0 <= i < keys.len(),
        is_slot_order(all, keys),
    ensures
        ({
            let before = updated(nodes, keys.take(i).to_set(), change);
            &&& node_or_zero(before, keys[i]) == node_or_zero(nodes, keys[i])
            &&& admits(nodes.dom(), keys[i]) ==> admits(before.dom(), keys[i])
            &&& entered(before, keys[i], change(keys[i], node_or_zero(nodes, keys[i]))) == updated(
                nodes,
                keys.take(i + 1).to_set(),
                change,
            )
            &&& keys.take(i + 1).to_set() == keys.take(i).to_set().insert(keys[i])
            &&& !keys.take(i).to_set().contains(keys[i])
        }),
{
    let done = keys.take(i);
    let key = keys[i];
    let more = keys.take(i + 1).to_set();
    let before = updated(nodes, done.to_set(), change);
    assert(keys.take(i + 1) =~= done.push(key));
    lemma_push_set(done, key);
    assert forall|other: u64| done.to_set().contains(other) implies slot_of(other) != slot_of(
        key,
    ) by {
        let j = done.index_of(other);
        assert(slot_of(keys[j]) < slot_of(keys[i]));
    }
    assert(!displaced(done.to_set(), key));
    assert forall|other: u64| #[trigger] displaced(more, other) <==> displaced(
        done.to_set(),
        other,
    ) || rivals(key, other) by {
        if displaced(more, other) {
            let k = choose|k: u64| #[trigger] more.contains(k) && rivals(k, other);
            if k != key {
                assert(done.to_set().contains(k));
            }
        }
        if displaced(done.to_set(), other) {
            let k = choose|k: u64| #[trigger] done.to_set().contains(k) && rivals(k, other);
            assert(more.contains(k));
        }
        assert(more.contains(key));
    }
    assert(entered(before, key, change(key, node_or_zero(nodes, key))) =~= updated(
        nodes,
        more,
        change,
    ));
    if admits(nodes.dom(), key) {
        assert forall|other: u64| #[trigger]
            before.dom().contains(other) && rivals(key, other) implies !is_older(
            version_of(key),
            version_of(other),
        ) by {
            assert(nodes.dom().contains(other));
        }
        if is_older(version_of(key), 0) {
            let other = choose|other: u64| #[trigger]
                nodes.dom().contains(other) && slot_of(other) == slot_of(key);
            assert(!displaced(done.to_set(), other));
            assert(before.dom().contains(other));
        }
    }
}

pub(crate) proof fn lemma_pipe_fits_prefix(
    nodes: Map<u64, NodeMetricsView>,
    pipe: LogicalPipe,
    numbers: Seq<u64>,
    table: Map<u64, PipeMetrics>,
    n: int,
)
    requires
        pipe_all_fits(nodes, pipe, numbers, table),
        0 <= n <= numbers.len(),
    ensures
        pipe_all_fits(nodes, pipe, numbers.take(n), table),
    decreases numbers.len(),
{
    if n == numbers.len() {
        assert(numbers.take(n) =~= numbers);
    } else {
        lemma_pipe_fits_prefix(nodes, pipe, numbers.drop_last(), table, n);
        assert(numbers.drop_last().take(n) =~= numbers.take(n));
    }
}

pub(crate) proof fn lemma_pipes_fit_prefix(
    nodes: Map<u64, NodeMetricsView>,
    keys: Seq<u64>,
    pending: Map<u64, Seq<u64>>,
    pipes: Map<u64, LogicalPipe>,
    table: Map<u64, PipeMetrics>,
    n: int,
)
    requires
        pipes_fit(nodes, keys, pending, pipes, table),
        0 <= n <= keys.len(),
    ensures
        pipes_fit(nodes, keys.take(n), pending, pipes, table),
    decreases keys.len(),
{
    if n == keys.len() {
        assert(keys.take(n) =~= keys);
    } else {
        lemma_pipes_fit_prefix(nodes, keys.drop_last(), pending, pipes, table, n);
        assert(keys.drop_last().take(n) =~= keys.take(n));
    }
}

} // verus!
