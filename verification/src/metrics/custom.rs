//! Metrics that a node defines for itself.
//!
//! Every task that reports to a metric has a cell of its own. A metric's value
//! combines its cells; the cell of a task that has ended is folded into the
//! metric, so that its share is kept and its memory is not.

use vstd::prelude::*;

verus! {

/// What a metric counts.
#[derive(Clone, Copy, Debug, PartialEq, Eq, Structural)]
pub enum MetricUnit {
    Unit,
    Bytes,
}

/// How the cells of a metric are combined.
#[derive(Clone, Copy, Debug, PartialEq, Eq, Structural)]
pub enum AggMode {
    Sum,
    Max,
    Latest,
}

/// What one task reported.
#[derive(Clone, Copy, Debug, PartialEq, Eq, Structural)]
pub struct Cell {
    pub value: i64,
    /// `0` until the first write.
    pub timestamp: u64,
}

impl Cell {
    /// A cell that was not written.
    pub fn new(value: i64) -> (cell: Cell)
        ensures
            cell == (Cell { value, timestamp: 0 }),
    {
        Cell { value, timestamp: 0 }
    }

    /// Marks the cell as written at `now`, in nanoseconds since a fixed
    /// instant, offset by 1 so that `0` means never written.
    pub fn stamp_now(&mut self, now: u64)
        requires
            now < u64::MAX,
        ensures
            *final(self) == (Cell { timestamp: (now + 1) as u64, ..*old(self) }),
    {
        self.timestamp = now + 1;
    }
}

/// What was reported by any number of tasks.
#[derive(Clone, Copy, Debug, PartialEq, Eq, Structural)]
pub struct Compacted {
    pub value: i64,
    pub timestamp: u64,
}

impl Compacted {
    /// Nothing reported yet.
    pub fn new(value: i64) -> (compacted: Compacted)
        ensures
            compacted == (Compacted { value, timestamp: 0 }),
    {
        Compacted { value, timestamp: 0 }
    }

    /// The value, once anything was reported.
    pub open spec fn reading(self) -> Option<i64> {
        if self.timestamp != 0 {
            Some(self.value)
        } else {
            None
        }
    }

    /// The value, once anything was reported.
    pub fn value(&self) -> (value: Option<i64>)
        ensures
            value == self.reading(),
    {
        if self.timestamp != 0 {
            Some(self.value)
        } else {
            None
        }
    }
}

/// The larger of two numbers.
pub open spec fn larger(a: int, b: int) -> int {
    if a >= b {
        a
    } else {
        b
    }
}

impl AggMode {
    /// The value that changes nothing when it is combined.
    pub open spec fn neutral(self) -> i64 {
        match self {
            AggMode::Sum => 0,
            AggMode::Max => i64::MIN,
            AggMode::Latest => 0,
        }
    }

    /// The value that a cell starts from.
    pub fn identity(self) -> (value: i64)
        ensures
            value == self.neutral(),
    {
        match self {
            AggMode::Sum => 0,
            AggMode::Max => i64::MIN,
            AggMode::Latest => 0,
        }
    }

    /// `compacted` combined with one more cell: the sum, the larger, or the one
    /// written later, the cell's where neither is later.
    pub open spec fn folded(self, compacted: Compacted, cell: Cell) -> Compacted {
        match self {
            AggMode::Sum => Compacted {
                value: compacted.value.wrapping_add(cell.value),
                timestamp: larger(compacted.timestamp as int, cell.timestamp as int) as u64,
            },
            AggMode::Max => Compacted {
                value: larger(compacted.value as int, cell.value as int) as i64,
                timestamp: larger(compacted.timestamp as int, cell.timestamp as int) as u64,
            },
            AggMode::Latest => if compacted.timestamp > cell.timestamp {
                compacted
            } else {
                Compacted { value: cell.value, timestamp: cell.timestamp }
            },
        }
    }

    /// Combines `compacted` with one more cell.
    pub fn fold(self, compacted: Compacted, cell: &Cell) -> (folded: Compacted)
        ensures
            folded == self.folded(compacted, *cell),
    {
        let timestamp: u64 = if compacted.timestamp >= cell.timestamp {
            compacted.timestamp
        } else {
            cell.timestamp
        };
        match self {
            AggMode::Sum => Compacted {
                value: compacted.value.wrapping_add(cell.value),
                timestamp,
            },
            AggMode::Max => Compacted {
                value: if compacted.value >= cell.value {
                    compacted.value
                } else {
                    cell.value
                },
                timestamp,
            },
            AggMode::Latest => if compacted.timestamp > cell.timestamp {
                compacted
            } else {
                Compacted { value: cell.value, timestamp: cell.timestamp }
            },
        }
    }

    /// `compacted` combined with all the cells in turn.
    pub open spec fn fold_all(self, compacted: Compacted, cells: Seq<LiveCell>) -> Compacted
        decreases cells.len(),
    {
        if cells.len() == 0 {
            compacted
        } else {
            self.folded(self.fold_all(compacted, cells.drop_last()), cells.last().cell)
        }
    }
}

/// The cell of one task, and how many reporters can still write to it.
#[derive(Clone, Copy, Debug, PartialEq, Eq, Structural)]
pub struct LiveCell {
    pub id: u64,
    pub cell: Cell,
    pub holders: u64,
}

/// What is registered for a metric.
#[derive(Clone, Debug)]
pub struct MetricSpec {
    pub key: String,
    pub unit: MetricUnit,
    pub agg: AggMode,
}

/// The same, with the key as characters.
#[verifier::ext_equal]
pub struct MetricSpecView {
    pub key: Seq<char>,
    pub unit: MetricUnit,
    pub agg: AggMode,
}

impl View for MetricSpec {
    type V = MetricSpecView;

    open spec fn view(&self) -> MetricSpecView {
        MetricSpecView { key: self.key@, unit: self.unit, agg: self.agg }
    }
}

impl MetricSpec {
    pub fn new(key: String, unit: MetricUnit, agg: AggMode) -> (spec: MetricSpec)
        ensures
            spec@ == (MetricSpecView { key: key@, unit, agg }),
    {
        MetricSpec { key, unit, agg }
    }
}

/// A metric's value at one moment.
#[derive(Debug)]
pub struct CustomMetric {
    pub key: String,
    pub unit: MetricUnit,
    pub agg: AggMode,
    /// `None` when the counter never received a reading
    pub value: Option<i64>,
}

impl Clone for CustomMetric {
    fn clone(&self) -> (metric: Self)
        ensures
            metric@ == self@,
    {
        CustomMetric {
            key: self.key.clone(),
            unit: self.unit,
            agg: self.agg,
            value: self.value,
        }
    }
}

/// The same, with the key as characters.
#[verifier::ext_equal]
pub struct CustomMetricView {
    pub key: Seq<char>,
    pub unit: MetricUnit,
    pub agg: AggMode,
    pub value: Option<i64>,
}

impl View for CustomMetric {
    type V = CustomMetricView;

    open spec fn view(&self) -> CustomMetricView {
        CustomMetricView { key: self.key@, unit: self.unit, agg: self.agg, value: self.value }
    }
}

struct MetricState {
    spec: MetricSpec,
    compacted: Compacted,
    live: Vec<LiveCell>,
}

/// A metric: what it is, what ended tasks reported, and the cells of the others
/// in the order in which they were taken.
#[verifier::ext_equal]
pub struct MetricStateView {
    pub spec: MetricSpecView,
    pub compacted: Compacted,
    pub live: Seq<LiveCell>,
}

impl View for MetricState {
    type V = MetricStateView;

    closed spec fn view(&self) -> MetricStateView {
        MetricStateView { spec: self.spec@, compacted: self.compacted, live: self.live@ }
    }
}

/// The cells that somebody can still write to.
pub open spec fn held(cells: Seq<LiveCell>) -> Seq<LiveCell>
    decreases cells.len(),
{
    if cells.len() == 0 {
        Seq::empty()
    } else if cells.last().holders > 0 {
        held(cells.drop_last()).push(cells.last())
    } else {
        held(cells.drop_last())
    }
}

/// The cells that nobody can write to any more.
pub open spec fn ended(cells: Seq<LiveCell>) -> Seq<LiveCell>
    decreases cells.len(),
{
    if cells.len() == 0 {
        Seq::empty()
    } else if cells.last().holders > 0 {
        ended(cells.drop_last())
    } else {
        ended(cells.drop_last()).push(cells.last())
    }
}

/// The cell numbered `id`, if it is there.
pub open spec fn find_cell(cells: Seq<LiveCell>, id: u64) -> Option<LiveCell>
    decreases cells.len(),
{
    if cells.len() == 0 {
        None
    } else if cells.last().id == id {
        Some(cells.last())
    } else {
        find_cell(cells.drop_last(), id)
    }
}

/// The cells with the one of the same number replaced by `cell`.
pub open spec fn set_cell_in(cells: Seq<LiveCell>, cell: LiveCell) -> Seq<LiveCell> {
    cells.map_values(
        |c: LiveCell|
            if c.id == cell.id {
                cell
            } else {
                c
            },
    )
}

impl MetricStateView {
    /// The metric with the cells of ended tasks folded in.
    pub open spec fn compact(self) -> MetricStateView {
        MetricStateView {
            spec: self.spec,
            compacted: self.spec.agg.fold_all(self.compacted, ended(self.live)),
            live: held(self.live),
        }
    }

    /// Everything that was reported.
    pub open spec fn total(self) -> Compacted {
        self.spec.agg.fold_all(self.compacted, self.live)
    }

    /// What a snapshot says of the metric.
    pub open spec fn snapshot(self) -> CustomMetricView {
        CustomMetricView {
            key: self.spec.key,
            unit: self.spec.unit,
            agg: self.spec.agg,
            value: self.compact().total().reading(),
        }
    }
}

/// The metrics of one node.
pub struct CustomMetrics {
    state: Vec<MetricState>,
    next_cell: u64,
}

/// The metrics in the order of their registration.
#[verifier::ext_equal]
pub struct CustomMetricsView {
    pub metrics: Seq<MetricStateView>,
    pub next_cell: u64,
}

impl View for CustomMetrics {
    type V = CustomMetricsView;

    closed spec fn view(&self) -> CustomMetricsView {
        CustomMetricsView {
            metrics: Seq::new(self.state@.len(), |i: int| self.state@[i]@),
            next_cell: self.next_cell,
        }
    }
}

impl CustomMetricsView {
    /// No two metrics share a key, and no two cells of a metric a number.
    pub open spec fn wf(self) -> bool {
        &&& forall|i: int, j: int|
            0 <= i < self.metrics.len() && 0 <= j < self.metrics.len() && i != j ==> (
            #[trigger] self.metrics[i]).spec.key != (#[trigger] self.metrics[j]).spec.key
        &&& forall|m: int, i: int|
            0 <= m < self.metrics.len() && 0 <= i < self.metrics[m].live.len() ==> (
            #[trigger] self.metrics[m].live[i]).id < self.next_cell
        &&& forall|m: int, i: int, j: int|
            0 <= m < self.metrics.len() && 0 <= i < j < self.metrics[m].live.len() ==> (
            #[trigger] self.metrics[m].live[i]).id != (#[trigger] self.metrics[m].live[j]).id
    }

    /// Where the metric `key` is registered.
    pub open spec fn is_at(self, key: Seq<char>, i: int) -> bool {
        0 <= i < self.metrics.len() && self.metrics[i].spec.key == key
    }

    /// Whether `key` is registered.
    pub open spec fn is_registered(self, key: Seq<char>) -> bool {
        exists|i: int| self.is_at(key, i)
    }

    /// Whether `spec` was already registered differently.
    pub open spec fn conflicts(self, spec: MetricSpecView) -> bool {
        exists|i: int| #[trigger] self.is_at(spec.key, i) && self.metrics[i].spec != spec
    }

    /// The metrics after `spec` was registered as the last.
    pub open spec fn extended(self, spec: MetricSpecView) -> CustomMetricsView {
        CustomMetricsView {
            metrics: self.metrics.push(
                MetricStateView {
                    spec,
                    compacted: Compacted { value: spec.agg.neutral(), timestamp: 0 },
                    live: Seq::empty(),
                },
            ),
            ..self
        }
    }

    /// The metrics with the cells of metric `m` replaced.
    pub open spec fn with_live(self, m: int, live: Seq<LiveCell>) -> CustomMetricsView {
        CustomMetricsView {
            metrics: self.metrics.update(m, MetricStateView { live, ..self.metrics[m] }),
            ..self
        }
    }

    /// The metrics after a cell of metric `m` was taken.
    pub open spec fn cell_taken(self, m: int) -> CustomMetricsView {
        let cell = LiveCell {
            id: self.next_cell,
            cell: Cell { value: self.metrics[m].spec.agg.neutral(), timestamp: 0 },
            holders: 1,
        };
        CustomMetricsView {
            next_cell: (self.next_cell + 1) as u64,
            ..self.with_live(m, self.metrics[m].live.push(cell))
        }
    }

    /// The cell `id` of metric `m`, while it is live.
    pub open spec fn cell(self, m: int, id: u64) -> Option<LiveCell> {
        if 0 <= m < self.metrics.len() {
            find_cell(self.metrics[m].live, id)
        } else {
            None
        }
    }

    /// The metrics with a cell of metric `m` replaced.
    pub open spec fn cell_set(self, m: int, cell: LiveCell) -> CustomMetricsView {
        if 0 <= m < self.metrics.len() {
            self.with_live(m, set_cell_in(self.metrics[m].live, cell))
        } else {
            self
        }
    }

    /// The metrics after `value` was written to the cell `id` of metric `m`.
    pub open spec fn written(self, m: int, id: u64, value: i64, now: u64) -> CustomMetricsView {
        match self.cell(m, id) {
            Some(live) => self.cell_set(
                m,
                LiveCell { cell: Cell { value, timestamp: (now + 1) as u64 }, ..live },
            ),
            None => self,
        }
    }

    /// The metrics with the cells of ended tasks folded in.
    pub open spec fn compact(self) -> CustomMetricsView {
        CustomMetricsView {
            metrics: self.metrics.map_values(|m: MetricStateView| m.compact()),
            ..self
        }
    }

    /// What a snapshot says of the metrics.
    pub open spec fn snapshot(self) -> Seq<CustomMetricView> {
        self.metrics.map_values(|m: MetricStateView| m.snapshot())
    }
}

impl CustomMetrics {
    /// No metrics.
    pub fn new() -> (metrics: CustomMetrics)
        ensures
            metrics@.wf(),
            metrics@ == (CustomMetricsView { metrics: Seq::empty(), next_cell: 0 }),
    {
        let metrics = CustomMetrics { state: Vec::new(), next_cell: 0 };
        assert(metrics@.metrics =~= Seq::empty());
        metrics
    }

    /// The number of metrics.
    pub fn len(&self) -> (len: usize)
        ensures
            len == self@.metrics.len(),
    {
        self.state.len()
    }

    /// Whether there are numbers left for cells.
    pub fn has_cells_left(&self) -> (left: bool)
        ensures
            left == (self@.next_cell < u64::MAX),
    {
        self.next_cell < u64::MAX
    }

    /// How many cells of a metric are live.
    pub fn num_live(&self, metric_idx: usize) -> (live: usize)
        requires
            metric_idx < self@.metrics.len(),
        ensures
            live == self@.metrics[metric_idx as int].live.len(),
    {
        assert(self@.metrics[metric_idx as int] == self.state@[metric_idx as int]@);
        self.state[metric_idx].live.len()
    }

    /// What ended tasks reported to a metric.
    pub fn compacted(&self, metric_idx: usize) -> (compacted: Compacted)
        requires
            metric_idx < self@.metrics.len(),
        ensures
            compacted == self@.metrics[metric_idx as int].compacted,
    {
        assert(self@.metrics[metric_idx as int] == self.state@[metric_idx as int]@);
        self.state[metric_idx].compacted
    }

    fn position(&self, key: &String) -> (position: Option<usize>)
        requires
            self@.wf(),
        ensures
            match position {
                Some(i) => self@.is_at(key@, i as int),
                None => !self@.is_registered(key@),
            },
    {
        let mut i: usize = 0;
        while i < self.state.len()
            invariant
                i <= self.state@.len(),
                forall|j: int| 0 <= j < i ==> !#[trigger] self@.is_at(key@, j),
            decreases self.state@.len() - i,
        {
            assert(self@.metrics[i as int] == self.state@[i as int]@);
            if self.state[i].spec.key == *key {
                assert(self@.is_at(key@, i as int));
                return Some(i);
            }
            assert(!self@.is_at(key@, i as int));
            i = i + 1;
        }
        None
    }

    /// Whether the same key is registered with a different unit or aggregation
    /// method.
    pub fn is_registered_differently(&self, spec: &MetricSpec) -> (differently: bool)
        requires
            self@.wf(),
        ensures
            differently == self@.conflicts(spec@),
    {
        match self.position(&spec.key) {
            Some(i) => {
                let known = &self.state[i].spec;
                assert(self@.metrics[i as int] == self.state@[i as int]@);
                proof {
                    assert forall|j: int| #[trigger] self@.is_at(spec@.key, j) implies j == i by {
                        if j != i {
                            assert(self@.metrics[i as int].spec.key
                                != self@.metrics[j].spec.key);
                        }
                    }
                    assert(self@.is_at(spec@.key, i as int));
                    assert((known@ == spec@) == (known.unit == spec.unit && known.agg
                        == spec.agg)) by {
                        if known.unit == spec.unit && known.agg == spec.agg {
                            assert(known@ =~= spec@);
                        }
                    }
                }
                known.unit != spec.unit || known.agg != spec.agg
            },
            None => {
                assert(!self@.conflicts(spec@));
                false
            },
        }
    }

    /// Registers a metric, returning its index.
    pub fn register(&mut self, spec: MetricSpec) -> (metric_idx: usize)
        requires
            old(self)@.wf(),
            !old(self)@.conflicts(spec@),
        ensures
            final(self)@.wf(),
            final(self)@.is_at(spec@.key, metric_idx as int),
            final(self)@.metrics[metric_idx as int].spec == spec@,
            old(self)@.is_registered(spec@.key) ==> final(self)@ == old(self)@,
            !old(self)@.is_registered(spec@.key) ==> final(self)@ == old(self)@.extended(spec@)
                && metric_idx == old(self)@.metrics.len(),
    {
        let ghost before = self@;
        if let Some(metric_idx) = self.position(&spec.key) {
            assert(self@.is_at(spec@.key, metric_idx as int));
            return metric_idx;
        }
        let ghost registered = spec@;
        let compacted = Compacted::new(spec.agg.identity());
        self.state.push(MetricState { spec, compacted, live: Vec::new() });
        proof {
            assert(self@.metrics.last().live =~= Seq::<LiveCell>::empty());
            assert(self@ =~= before.extended(registered));
            assert forall|i: int| 0 <= i < before.metrics.len() implies (
            #[trigger] self@.metrics[i]).spec.key != registered.key by {
                assert(!before.is_at(registered.key, i));
            }
        }
        self.state.len() - 1
    }

    /// Takes a cell of this metric for one task.
    pub fn new_cell(&mut self, metric_idx: usize) -> (id: u64)
        requires
            old(self)@.wf(),
            metric_idx < old(self)@.metrics.len(),
            old(self)@.next_cell < u64::MAX,
        ensures
            final(self)@.wf(),
            id == old(self)@.next_cell,
            final(self)@ == old(self)@.cell_taken(metric_idx as int),
    {
        let ghost before = self@;
        assert(self@.metrics[metric_idx as int] == self.state@[metric_idx as int]@);
        let id: u64 = self.next_cell;
        let cell = Cell::new(self.state[metric_idx].spec.agg.identity());
        self.state[metric_idx].live.push(LiveCell { id, cell, holders: 1 });
        self.next_cell = id + 1;
        assert(self@ =~= before.cell_taken(metric_idx as int));
        id
    }

    fn find(&self, metric_idx: usize, id: u64) -> (position: Option<usize>)
        requires
            metric_idx < self@.metrics.len(),
        ensures
            match position {
                Some(i) => i < self@.metrics[metric_idx as int].live.len() && find_cell(
                    self@.metrics[metric_idx as int].live,
                    id,
                ) == Some(self@.metrics[metric_idx as int].live[i as int])
                    && self@.metrics[metric_idx as int].live[i as int].id == id,
                None => find_cell(self@.metrics[metric_idx as int].live, id) is None,
            },
    {
        let ghost live = self@.metrics[metric_idx as int].live;
        assert(self@.metrics[metric_idx as int] == self.state@[metric_idx as int]@);
        let mut i: usize = self.state[metric_idx].live.len();
        assert(live.take(i as int) =~= live);
        while i > 0
            invariant
                metric_idx < self.state@.len(),
                live == self.state@[metric_idx as int].live@,
                i <= live.len(),
                find_cell(live, id) == find_cell(live.take(i as int), id),
            decreases i,
        {
            assert(live.take(i as int).drop_last() =~= live.take(i - 1));
            if self.state[metric_idx].live[i - 1].id == id {
                return Some(i - 1);
            }
            i = i - 1;
        }
        None
    }

    /// The cell `id` of a metric, while it is live.
    pub fn get_cell(&self, metric_idx: usize, id: u64) -> (cell: Option<LiveCell>)
        ensures
            cell == self@.cell(metric_idx as int, id),
    {
        if metric_idx >= self.state.len() {
            return None;
        }
        match self.find(metric_idx, id) {
            Some(i) => {
                assert(self@.metrics[metric_idx as int] == self.state@[metric_idx as int]@);
                Some(self.state[metric_idx].live[i])
            },
            None => None,
        }
    }

    /// Replaces a cell of a metric, if it is live.
    pub fn set_cell(&mut self, metric_idx: usize, cell: LiveCell)
        requires
            old(self)@.wf(),
        ensures
            final(self)@.wf(),
            final(self)@ == old(self)@.cell_set(metric_idx as int, cell),
    {
        let ghost before = self@;
        if metric_idx >= self.state.len() {
            return ;
        }
        assert(self@.metrics[metric_idx as int] == self.state@[metric_idx as int]@);
        if let Some(i) = self.find(metric_idx, cell.id) {
            self.state[metric_idx].live[i] = cell;
            proof {
                let live = before.metrics[metric_idx as int].live;
                assert(set_cell_in(live, cell) =~= live.update(i as int, cell)) by {
                    assert forall|j: int| 0 <= j < live.len() && j != i implies live[j].id
                        != cell.id by {
                        if j < i {
                            assert(live[j].id != live[i as int].id);
                        } else {
                            assert(live[i as int].id != live[j].id);
                        }
                    }
                }
                assert(self@.metrics[metric_idx as int].live =~= live.update(i as int, cell));
                assert(self@ =~= before.cell_set(metric_idx as int, cell));
            }
        } else {
            proof {
                let live = before.metrics[metric_idx as int].live;
                lemma_no_cell(live, cell.id);
                assert(set_cell_in(live, cell) =~= live);
                assert(self@ =~= before.cell_set(metric_idx as int, cell));
            }
        }
    }

    /// Adds a reporter that can write to a cell.
    pub fn hold_cell(&mut self, metric_idx: usize, id: u64)
        requires
            old(self)@.wf(),
            old(self)@.cell(metric_idx as int, id) matches Some(cell) ==> cell.holders < u64::MAX,
        ensures
            final(self)@.wf(),
            final(self)@ == match old(self)@.cell(metric_idx as int, id) {
                Some(cell) => old(self)@.cell_set(
                    metric_idx as int,
                    LiveCell { holders: (cell.holders + 1) as u64, ..cell },
                ),
                None => old(self)@,
            },
    {
        if let Some(cell) = self.get_cell(metric_idx, id) {
            proof {
                lemma_found_id(self@.metrics[metric_idx as int].live, id);
            }
            self.set_cell(metric_idx, LiveCell { holders: cell.holders + 1, ..cell });
        }
    }

    /// Takes a reporter away from a cell.
    pub fn release_cell(&mut self, metric_idx: usize, id: u64)
        requires
            old(self)@.wf(),
        ensures
            final(self)@.wf(),
            final(self)@ == match old(self)@.cell(metric_idx as int, id) {
                Some(cell) => old(self)@.cell_set(
                    metric_idx as int,
                    LiveCell {
                        holders: if cell.holders > 0 {
                            (cell.holders - 1) as u64
                        } else {
                            0
                        },
                        ..cell
                    },
                ),
                None => old(self)@,
            },
    {
        if let Some(cell) = self.get_cell(metric_idx, id) {
            proof {
                lemma_found_id(self@.metrics[metric_idx as int].live, id);
            }
            self.set_cell(metric_idx, LiveCell { holders: cell.holders.saturating_sub(1), ..cell });
        }
    }

    /// Writes to a cell at `now`.
    pub fn write_cell(&mut self, metric_idx: usize, id: u64, value: i64, now: u64)
        requires
            old(self)@.wf(),
            now < u64::MAX,
        ensures
            final(self)@.wf(),
            final(self)@ == old(self)@.written(metric_idx as int, id, value, now),
    {
        if let Some(live) = self.get_cell(metric_idx, id) {
            proof {
                lemma_found_id(self@.metrics[metric_idx as int].live, id);
            }
            let mut cell: Cell = live.cell;
            cell.value = value;
            cell.stamp_now(now);
            self.set_cell(metric_idx, LiveCell { cell, ..live });
        }
    }

    fn compact_metric(&mut self, metric_idx: usize) -> (metric: CustomMetric)
        requires
            metric_idx < old(self)@.metrics.len(),
        ensures
            metric@ == old(self)@.metrics[metric_idx as int].snapshot(),
            final(self)@ == (CustomMetricsView {
                metrics: old(self)@.metrics.update(
                    metric_idx as int,
                    old(self)@.metrics[metric_idx as int].compact(),
                ),
                ..old(self)@
            }),
    {
        let ghost before = self@;
        let ghost metric = self@.metrics[metric_idx as int];
        assert(metric == self.state@[metric_idx as int]@);
        let agg: AggMode = self.state[metric_idx].spec.agg;
        let mut compacted: Compacted = self.state[metric_idx].compacted;
        let mut kept: Vec<LiveCell> = Vec::new();
        let mut i: usize = 0;
        while i < self.state[metric_idx].live.len()
            invariant
                metric_idx < self.state@.len(),
                i <= metric.live.len(),
                self@ == before,
                metric == self.state@[metric_idx as int]@,
                agg == metric.spec.agg,
                compacted == agg.fold_all(metric.compacted, ended(metric.live.take(i as int))),
                kept@ == held(metric.live.take(i as int)),
            decreases metric.live.len() - i,
        {
            let live: LiveCell = self.state[metric_idx].live[i];
            proof {
                let next = metric.live.take(i + 1);
                assert(next.drop_last() =~= metric.live.take(i as int));
                assert(next.last() == live);
                let gone = ended(metric.live.take(i as int));
                assert(gone.push(live).drop_last() =~= gone);
            }
            if live.holders > 0 {
                kept.push(live);
            } else {
                compacted = agg.fold(compacted, &live.cell);
            }
            i = i + 1;
        }
        assert(metric.live.take(i as int) =~= metric.live);
        let mut folded: Compacted = compacted;
        let mut j: usize = 0;
        while j < kept.len()
            invariant
                j <= kept@.len(),
                folded == agg.fold_all(compacted, kept@.take(j as int)),
            decreases kept@.len() - j,
        {
            assert(kept@.take(j + 1).drop_last() =~= kept@.take(j as int));
            folded = agg.fold(folded, &kept[j].cell);
            j = j + 1;
        }
        assert(kept@.take(j as int) =~= kept@);
        self.state[metric_idx].compacted = compacted;
        self.state[metric_idx].live = kept;
        proof {
            assert(self@.metrics[metric_idx as int] =~= metric.compact());
            assert(self@ =~= (CustomMetricsView {
                metrics: before.metrics.update(metric_idx as int, metric.compact()),
                ..before
            }));
        }
        CustomMetric {
            key: self.state[metric_idx].spec.key.clone(),
            unit: self.state[metric_idx].spec.unit,
            agg,
            value: folded.value(),
        }
    }

    /// Reads every metric in registration order, and compacts the cells
    /// whose task has dropped.
    pub fn snapshot_and_compact(&mut self) -> (readings: Vec<CustomMetric>)
        requires
            old(self)@.wf(),
        ensures
            final(self)@.wf(),
            final(self)@ == old(self)@.compact(),
            readings@.map_values(|m: CustomMetric| m@) == old(self)@.snapshot(),
    {
        let ghost before = self@;
        let mut readings: Vec<CustomMetric> = Vec::new();
        let mut i: usize = 0;
        while i < self.state.len()
            invariant
                i <= before.metrics.len(),
                self@.metrics.len() == before.metrics.len(),
                self@.next_cell == before.next_cell,
                forall|k: int|
                    0 <= k < before.metrics.len() ==> #[trigger] self@.metrics[k] == (if k < i {
                        before.metrics[k].compact()
                    } else {
                        before.metrics[k]
                    }),
                readings@.len() == i,
                forall|k: int|
                    0 <= k < i ==> (#[trigger] readings@[k])@ == before.metrics[k].snapshot(),
            decreases before.metrics.len() - i,
        {
            let ghost middle = self@;
            assert(self.state@.len() == self@.metrics.len());
            assert(middle.metrics[i as int] == before.metrics[i as int]);
            let metric = self.compact_metric(i);
            readings.push(metric);
            i = i + 1;
        }
        proof {
            assert(self@ =~= before.compact());
            lemma_compact_wf(before);
            assert(readings@.map_values(|m: CustomMetric| m@) =~= before.snapshot());
        }
        readings
    }
}

proof fn lemma_no_cell(live: Seq<LiveCell>, id: u64)
    requires
        find_cell(live, id) is None,
    ensures
        forall|j: int| 0 <= j < live.len() ==> (#[trigger] live[j]).id != id,
    decreases live.len(),
{
    if live.len() > 0 {
        lemma_no_cell(live.drop_last(), id);
        assert forall|j: int| 0 <= j < live.len() implies (#[trigger] live[j]).id != id by {
            if j < live.len() - 1 {
                assert(live.drop_last()[j].id != id);
            }
        }
    }
}

pub(crate) proof fn lemma_found_id(live: Seq<LiveCell>, id: u64)
    ensures
        find_cell(live, id) matches Some(cell) ==> cell.id == id,
    decreases live.len(),
{
    if live.len() > 0 {
        lemma_found_id(live.drop_last(), id);
    }
}

/// Every cell that is held is one of the cells, in the same order.
proof fn lemma_held_positions(cells: Seq<LiveCell>)
    ensures
        forall|i: int|
            0 <= i < held(cells).len() ==> exists|k: int|
                0 <= k < cells.len() && #[trigger] cells[k] == #[trigger] held(cells)[i],
        (forall|i: int, j: int|
            0 <= i < j < cells.len() ==> (#[trigger] cells[i]).id != (#[trigger] cells[j]).id) ==> (
        forall|i: int, j: int|
            0 <= i < j < held(cells).len() ==> (#[trigger] held(cells)[i]).id != (
            #[trigger] held(cells)[j]).id),
    decreases cells.len(),
{
    if cells.len() > 0 {
        let rest = cells.drop_last();
        lemma_held_positions(rest);
        assert forall|i: int| 0 <= i < held(cells).len() implies exists|k: int|
            0 <= k < cells.len() && #[trigger] cells[k] == #[trigger] held(cells)[i] by {
            if i < held(rest).len() {
                assert(held(cells)[i] == held(rest)[i]);
                let k = choose|k: int| 0 <= k < rest.len() && #[trigger] rest[k] == held(rest)[i];
                assert(cells[k] == held(cells)[i]);
            } else {
                assert(cells[cells.len() - 1] == held(cells)[i]);
            }
        }
        if forall|i: int, j: int|
            0 <= i < j < cells.len() ==> (#[trigger] cells[i]).id != (#[trigger] cells[j]).id {
            assert forall|i: int, j: int| 0 <= i < j < rest.len() implies (
            #[trigger] rest[i]).id != (#[trigger] rest[j]).id by {
                assert(cells[i].id != cells[j].id);
            }
            assert forall|i: int, j: int| 0 <= i < j < held(cells).len() implies (
            #[trigger] held(cells)[i]).id != (#[trigger] held(cells)[j]).id by {
                assert(held(cells)[i] == held(rest)[i]);
                if j < held(rest).len() {
                    assert(held(cells)[j] == held(rest)[j]);
                } else {
                    let k = choose|k: int| 0 <= k < rest.len() && #[trigger] rest[k] == held(rest)[i];
                    assert(cells[k].id != cells[cells.len() - 1].id);
                }
            }
        }
    }
}

pub(crate) proof fn lemma_compact_wf(metrics: CustomMetricsView)
    requires
        metrics.wf(),
    ensures
        metrics.compact().wf(),
{
    let after = metrics.compact();
    assert forall|m: int| 0 <= m < metrics.metrics.len() implies #[trigger] after.metrics[m].live
        == held(metrics.metrics[m].live) by {
    }
    assert forall|m: int, i: int|
        0 <= m < after.metrics.len() && 0 <= i < after.metrics[m].live.len() implies (
    #[trigger] after.metrics[m].live[i]).id < after.next_cell by {
        let live = metrics.metrics[m].live;
        lemma_held_positions(live);
        assert(after.metrics[m].live == held(live));
        let k = choose|k: int| 0 <= k < live.len() && #[trigger] live[k] == held(live)[i];
        assert(metrics.metrics[m].live[k].id < metrics.next_cell);
    }
    assert forall|m: int, i: int, j: int|
        0 <= m < after.metrics.len() && 0 <= i < j < after.metrics[m].live.len() implies (
    #[trigger] after.metrics[m].live[i]).id != (#[trigger] after.metrics[m].live[j]).id by {
        let live = metrics.metrics[m].live;
        lemma_held_positions(live);
        assert(after.metrics[m].live == held(live));
        assert forall|a: int, b: int| 0 <= a < b < live.len() implies (#[trigger] live[a]).id != (
        #[trigger] live[b]).id by {
            assert(metrics.metrics[m].live[a].id != metrics.metrics[m].live[b].id);
        }
    }
}

} // verus!
