//! What a node's metrics read after everything that ever happened to them.

use crate::metrics::custom::{held, larger, lemma_compact_wf, lemma_found_id, AggMode, Cell, CustomMetricsView, LiveCell, MetricSpecView, MetricStateView};
use crate::metrics::custom_laws::{law_compaction_keeps_total, law_gauge_is_latest, law_gauge_shows_the_last_set, law_holders_do_not_count, law_max_takes_the_higher, law_reading_means_report, law_snapshot_reads_total, law_sum_counts_every_deduction, law_sum_counts_every_report, lemma_held_of, lemma_set_cell, lemma_wrapped_twice, stamps_tell_apart, wrapped};
use vstd::prelude::*;

verus! {

/// What a reporter is told.
pub enum Report {
    /// To add to a sum.
    Add(i64),
    /// To take from a sum.
    Sub(i64),
    /// To raise a maximum.
    Record(i64),
    /// To set a gauge.
    Put(i64),
}

impl Report {
    /// Whether the reporters of a metric take such a report.
    pub open spec fn suits(self, agg: AggMode) -> bool {
        match self {
            Report::Add(_) => agg == AggMode::Sum,
            Report::Sub(_) => agg == AggMode::Sum,
            Report::Record(_) => agg == AggMode::Max,
            Report::Put(_) => agg == AggMode::Latest,
        }
    }

    /// The task's share after the report.
    pub open spec fn share(self, before: i64) -> i64 {
        match self {
            Report::Add(delta) => before.wrapping_add(delta),
            Report::Sub(delta) => before.wrapping_sub(delta),
            Report::Record(value) => larger(before as int, value as int) as i64,
            Report::Put(value) => value,
        }
    }

    /// What the report says.
    pub open spec fn amount(self) -> int {
        match self {
            Report::Add(delta) => delta as int,
            Report::Sub(delta) => -delta,
            Report::Record(value) => value as int,
            Report::Put(value) => value as int,
        }
    }
}

/// Something that happens to a node's metrics.
pub enum Event {
    /// A metric is registered.
    Register(MetricSpecView),
    /// A task takes a reporter of a metric, which gets a new cell.
    Take(int),
    /// A reporter of a metric reports to its cell.
    Report { m: int, id: u64, report: Report, now: u64 },
    /// A reporter is cloned.
    Share { m: int, id: u64 },
    /// A reporter is dropped.
    Release { m: int, id: u64 },
    /// The metrics are read, and the cells of ended tasks compacted.
    Snapshot,
}

/// The metrics after the event.
pub open spec fn happened(metrics: CustomMetricsView, event: Event) -> CustomMetricsView {
    match event {
        Event::Register(spec) => if metrics.is_registered(spec.key) {
            metrics
        } else {
            metrics.extended(spec)
        },
        Event::Take(m) => metrics.cell_taken(m),
        Event::Report { m, id, report, now } => match metrics.cell(m, id) {
            Some(live) => metrics.written(m, id, report.share(live.cell.value), now),
            None => metrics,
        },
        Event::Share { m, id } => match metrics.cell(m, id) {
            Some(cell) => metrics.cell_set(
                m,
                LiveCell { holders: (cell.holders + 1) as u64, ..cell },
            ),
            None => metrics,
        },
        Event::Release { m, id } => match metrics.cell(m, id) {
            Some(cell) => metrics.cell_set(
                m,
                LiveCell {
                    holders: if cell.holders > 0 {
                        (cell.holders - 1) as u64
                    } else {
                        0
                    },
                    ..cell
                },
            ),
            None => metrics,
        },
        Event::Snapshot => metrics.compact(),
    }
}

/// The metrics of a node to which the events happened.
pub open spec fn after(events: Seq<Event>) -> CustomMetricsView
    decreases events.len(),
{
    if events.len() == 0 {
        CustomMetricsView { metrics: Seq::empty(), next_cell: 0 }
    } else {
        happened(after(events.drop_last()), events.last())
    }
}

/// What was reported to the metric `m`, in order.
pub open spec fn reports(events: Seq<Event>, m: int) -> Seq<int>
    decreases events.len(),
{
    if events.len() == 0 {
        Seq::empty()
    } else {
        let earlier = reports(events.drop_last(), m);
        match events.last() {
            Event::Report { m: to, report, .. } => if to == m {
                earlier.push(report.amount())
            } else {
                earlier
            },
            _ => earlier,
        }
    }
}

/// The stamp of the last report to the metric `m`, which is zero where there was
/// none.
pub open spec fn last_stamp(events: Seq<Event>, m: int) -> int
    decreases events.len(),
{
    if events.len() == 0 {
        0
    } else {
        match events.last() {
            Event::Report { m: to, now, .. } => if to == m {
                now + 1
            } else {
                last_stamp(events.drop_last(), m)
            },
            _ => last_stamp(events.drop_last(), m),
        }
    }
}

/// The last of the events can happen after the others: no metric is registered
/// anew as something else, reporters exist and fit their metric, and no two
/// values of a gauge are set at the same time.
pub open spec fn can_happen(events: Seq<Event>) -> bool {
    let metrics = after(events.drop_last());
    match events.last() {
        Event::Register(spec) => !metrics.conflicts(spec),
        Event::Take(m) => 0 <= m < metrics.metrics.len() && metrics.next_cell < u64::MAX,
        Event::Report { m, id, report, now } => {
            &&& 0 <= m < metrics.metrics.len()
            &&& metrics.cell(m, id) is Some
            &&& report.suits(metrics.metrics[m].spec.agg)
            &&& now < u64::MAX
            &&& metrics.metrics[m].spec.agg == AggMode::Latest ==> last_stamp(
                events.drop_last(),
                m,
            ) <= now
        },
        Event::Share { m, id } => metrics.cell(m, id) matches Some(cell) ==> cell.holders
            < u64::MAX,
        _ => true,
    }
}

/// Each of the events can happen after those before it.
pub open spec fn is_history(events: Seq<Event>) -> bool
    decreases events.len(),
{
    events.len() == 0 || is_history(events.drop_last()) && can_happen(events)
}

/// The sum of the numbers.
pub open spec fn sum_of(numbers: Seq<int>) -> int
    decreases numbers.len(),
{
    if numbers.len() == 0 {
        0
    } else {
        sum_of(numbers.drop_last()) + numbers.last()
    }
}

/// The highest of the numbers, or the lowest that a metric can hold.
pub open spec fn highest_of(numbers: Seq<int>) -> int
    decreases numbers.len(),
{
    if numbers.len() == 0 {
        i64::MIN as int
    } else {
        larger(highest_of(numbers.drop_last()), numbers.last())
    }
}

/// What a metric reads to which this was reported: nothing where nothing was,
/// and else the sum, the highest, or the last.
pub open spec fn told(agg: AggMode, reports: Seq<int>) -> Option<int> {
    if reports.len() == 0 {
        None
    } else {
        Some(
            match agg {
                AggMode::Sum => wrapped(sum_of(reports)),
                AggMode::Max => highest_of(reports),
                AggMode::Latest => reports.last(),
            },
        )
    }
}

/// A metric to which this was reported, `last` being the stamp of the last
/// report.
spec fn tells(metric: MetricStateView, reports: Seq<int>, last: int) -> bool {
    let total = metric.total();
    &&& total.timestamp != 0 <==> reports.len() > 0
    &&& match metric.spec.agg {
        AggMode::Sum => total.value == wrapped(sum_of(reports)),
        AggMode::Max => total.value == highest_of(reports),
        AggMode::Latest => {
            &&& total.timestamp == last
            &&& reports.len() > 0 ==> total.value == reports.last()
            &&& stamps_tell_apart(metric.live)
            &&& forall|i: int|
                0 <= i < metric.live.len() && (#[trigger] metric.live[i]).cell.timestamp == 0
                    ==> metric.live[i].cell.value == 0
        },
    }
}

proof fn lemma_set_wf(metrics: CustomMetricsView, m: int, cell: LiveCell)
    requires
        metrics.wf(),
        0 <= m < metrics.metrics.len(),
        metrics.cell(m, cell.id) is Some,
    ensures
        metrics.cell_set(m, cell).wf(),
{
    let i = lemma_set_cell(metrics, m, cell.id, cell);
    let next = metrics.cell_set(m, cell);
    let live = metrics.metrics[m].live;
    assert(next.metrics[m].live == live.update(i, cell));
    assert forall|n: int, j: int|
        0 <= n < next.metrics.len() && 0 <= j < next.metrics[n].live.len() implies (
    #[trigger] next.metrics[n].live[j]).id < next.next_cell && next.metrics[n].live[j].id
        == metrics.metrics[n].live[j].id by {
        assert(metrics.metrics[n].live[j].id < metrics.next_cell);
        assert(metrics.metrics[m].live[i].id < metrics.next_cell);
    }
    assert forall|n: int, j: int, k: int|
        0 <= n < next.metrics.len() && 0 <= j < k < next.metrics[n].live.len() implies (
    #[trigger] next.metrics[n].live[j]).id != (#[trigger] next.metrics[n].live[k]).id by {
        assert(metrics.metrics[n].live[j].id != metrics.metrics[n].live[k].id);
    }
    assert forall|a: int, b: int|
        0 <= a < next.metrics.len() && 0 <= b < next.metrics.len() && a != b implies (
    #[trigger] next.metrics[a]).spec.key != (#[trigger] next.metrics[b]).spec.key by {
        assert(metrics.metrics[a].spec.key != metrics.metrics[b].spec.key);
    }
}

proof fn lemma_wf_kept(events: Seq<Event>)
    requires
        events.len() > 0,
        after(events.drop_last()).wf(),
        can_happen(events),
    ensures
        after(events).wf(),
{
    let metrics = after(events.drop_last());
    let next = after(events);
    match events.last() {
        Event::Register(spec) => {
            if !metrics.is_registered(spec.key) {
                assert forall|a: int, b: int|
                    0 <= a < next.metrics.len() && 0 <= b < next.metrics.len() && a != b implies (
                #[trigger] next.metrics[a]).spec.key != (#[trigger] next.metrics[b]).spec.key by {
                    if a == metrics.metrics.len() {
                        assert(!metrics.is_at(spec.key, b));
                    } else if b == metrics.metrics.len() {
                        assert(!metrics.is_at(spec.key, a));
                    } else {
                        assert(metrics.metrics[a].spec.key != metrics.metrics[b].spec.key);
                    }
                }
                assert forall|n: int, j: int|
                    0 <= n < next.metrics.len() && 0 <= j < next.metrics[n].live.len() implies (
                #[trigger] next.metrics[n].live[j]).id < next.next_cell by {
                    assert(metrics.metrics[n].live[j].id < metrics.next_cell);
                }
                assert forall|n: int, j: int, k: int|
                    0 <= n < next.metrics.len() && 0 <= j < k < next.metrics[n].live.len() implies (
                #[trigger] next.metrics[n].live[j]).id != (#[trigger] next.metrics[n].live[k]).id by {
                    assert(metrics.metrics[n].live[j].id != metrics.metrics[n].live[k].id);
                }
            }
        },
        Event::Take(m) => {
            assert forall|a: int, b: int|
                0 <= a < next.metrics.len() && 0 <= b < next.metrics.len() && a != b implies (
            #[trigger] next.metrics[a]).spec.key != (#[trigger] next.metrics[b]).spec.key by {
                assert(metrics.metrics[a].spec.key != metrics.metrics[b].spec.key);
            }
            assert forall|n: int, j: int|
                0 <= n < next.metrics.len() && 0 <= j < next.metrics[n].live.len() implies (
            #[trigger] next.metrics[n].live[j]).id < next.next_cell by {
                if j < metrics.metrics[n].live.len() {
                    assert(metrics.metrics[n].live[j].id < metrics.next_cell);
                }
            }
            assert forall|n: int, j: int, k: int|
                0 <= n < next.metrics.len() && 0 <= j < k < next.metrics[n].live.len() implies (
            #[trigger] next.metrics[n].live[j]).id != (#[trigger] next.metrics[n].live[k]).id by {
                assert(metrics.metrics[n].live[j].id < metrics.next_cell);
                if k < metrics.metrics[n].live.len() {
                    assert(metrics.metrics[n].live[j].id != metrics.metrics[n].live[k].id);
                }
            }
        },
        Event::Report { m, id, report, now } => {
            lemma_found_id(metrics.metrics[m].live, id);
            lemma_set_wf(
                metrics,
                m,
                LiveCell {
                    cell: Cell {
                        value: report.share(metrics.cell(m, id)->0.cell.value),
                        timestamp: (now + 1) as u64,
                    },
                    ..metrics.cell(m, id)->0
                },
            );
        },
        Event::Share { m, id } => {
            if let Some(cell) = metrics.cell(m, id) {
                lemma_found_id(metrics.metrics[m].live, id);
                lemma_set_wf(
                    metrics,
                    m,
                    LiveCell { holders: (cell.holders + 1) as u64, ..cell },
                );
            }
        },
        Event::Release { m, id } => {
            if let Some(cell) = metrics.cell(m, id) {
                lemma_found_id(metrics.metrics[m].live, id);
                let holders: u64 = if cell.holders > 0 {
                    (cell.holders - 1) as u64
                } else {
                    0
                };
                lemma_set_wf(metrics, m, LiveCell { holders, ..cell });
            }
        },
        Event::Snapshot => {
            lemma_compact_wf(metrics);
        },
    }
}

/// Only the holders of a cell change: the metric tells the same.
proof fn lemma_holders_tell_nothing(
    metrics: CustomMetricsView,
    m: int,
    id: u64,
    holders: u64,
    reports: Seq<int>,
    last: int,
)
    requires
        metrics.wf(),
        0 <= m < metrics.metrics.len(),
        metrics.cell(m, id) is Some,
        tells(metrics.metrics[m], reports, last),
    ensures
        tells(
            metrics.cell_set(m, LiveCell { holders, ..metrics.cell(m, id)->0 }).metrics[m],
            reports,
            last,
        ),
{
    let cell = LiveCell { holders, ..metrics.cell(m, id)->0 };
    lemma_found_id(metrics.metrics[m].live, id);
    law_holders_do_not_count(metrics, m, id, holders);
    let i = lemma_set_cell(metrics, m, id, cell);
    let before = metrics.metrics[m].live;
    let live = metrics.cell_set(m, cell).metrics[m].live;
    assert(forall|j: int| 0 <= j < live.len() ==> (#[trigger] live[j]).cell == before[j].cell);
}

/// A new cell tells nothing.
proof fn lemma_new_cell_tells_nothing(
    metrics: CustomMetricsView,
    m: int,
    reports: Seq<int>,
    last: int,
)
    requires
        0 <= m < metrics.metrics.len(),
        tells(metrics.metrics[m], reports, last),
    ensures
        tells(metrics.cell_taken(m).metrics[m], reports, last),
{
    let before = metrics.metrics[m];
    let next = metrics.cell_taken(m).metrics[m];
    assert(next.live.drop_last() =~= before.live);
    if before.spec.agg == AggMode::Sum {
        lemma_wrapped_twice(sum_of(reports), 0);
    }
}

/// Compacting tells nothing.
proof fn lemma_compacting_tells_nothing(metric: MetricStateView, reports: Seq<int>, last: int)
    requires
        tells(metric, reports, last),
    ensures
        tells(metric.compact(), reports, last),
{
    law_compaction_keeps_total(metric);
    if metric.spec.agg == AggMode::Latest {
        let kept = held(metric.live);
        assert forall|i: int, j: int|
            0 <= i < kept.len() && 0 <= j < kept.len() && (#[trigger] kept[i]).cell.timestamp == (
            #[trigger] kept[j]).cell.timestamp implies kept[i].cell == kept[j].cell by {
            lemma_held_of(metric.live, i);
            lemma_held_of(metric.live, j);
            let a = choose|a: int|
                0 <= a < metric.live.len() && #[trigger] metric.live[a] == kept[i];
            let b = choose|b: int|
                0 <= b < metric.live.len() && #[trigger] metric.live[b] == kept[j];
            assert(metric.live[a].cell == metric.live[b].cell);
        }
        assert forall|i: int|
            0 <= i < kept.len() && (#[trigger] kept[i]).cell.timestamp
                == 0 implies kept[i].cell.value == 0 by {
            lemma_held_of(metric.live, i);
            let a = choose|a: int|
                0 <= a < metric.live.len() && #[trigger] metric.live[a] == kept[i];
            assert(metric.live[a].cell.timestamp == 0);
        }
    }
}

/// A report is told.
proof fn lemma_report_is_told(
    metrics: CustomMetricsView,
    m: int,
    id: u64,
    report: Report,
    now: u64,
    reports: Seq<int>,
    last: int,
)
    requires
        metrics.wf(),
        0 <= m < metrics.metrics.len(),
        metrics.cell(m, id) is Some,
        report.suits(metrics.metrics[m].spec.agg),
        now < u64::MAX,
        metrics.metrics[m].spec.agg == AggMode::Latest ==> last <= now,
        tells(metrics.metrics[m], reports, last),
    ensures
        ({
            let value = report.share(metrics.cell(m, id)->0.cell.value);
            tells(
                metrics.written(m, id, value, now).metrics[m],
                reports.push(report.amount()),
                now + 1,
            )
        }),
{
    let old_cell = metrics.cell(m, id)->0;
    let value = report.share(old_cell.cell.value);
    let cell = LiveCell {
        cell: Cell { value, timestamp: (now + 1) as u64 },
        ..old_cell
    };
    lemma_found_id(metrics.metrics[m].live, id);
    let i = lemma_set_cell(metrics, m, id, cell);
    let before = metrics.metrics[m];
    let next = metrics.written(m, id, value, now).metrics[m];
    assert(next.live == before.live.update(i, cell));
    let more = reports.push(report.amount());
    assert(more.drop_last() =~= reports);
    law_reading_means_report(next);
    assert(next.live[i].cell.timestamp != 0);
    match report {
        Report::Add(delta) => {
            law_sum_counts_every_report(metrics, m, id, delta, now);
            lemma_wrapped_twice(sum_of(reports), delta as int);
        },
        Report::Sub(delta) => {
            law_sum_counts_every_deduction(metrics, m, id, delta, now);
            lemma_wrapped_twice(sum_of(reports), -delta);
        },
        Report::Record(value) => {
            law_max_takes_the_higher(metrics, m, id, value, now);
        },
        Report::Put(value) => {
            law_gauge_is_latest(before.compacted, before.live);
            law_gauge_shows_the_last_set(metrics, m, id, value, now);
            assert forall|a: int, b: int|
                0 <= a < next.live.len() && 0 <= b < next.live.len() && (
                #[trigger] next.live[a]).cell.timestamp == (
                #[trigger] next.live[b]).cell.timestamp implies next.live[a].cell
                == next.live[b].cell by {
                if a != i && b != i {
                    assert(before.live[a].cell == before.live[b].cell);
                } else if a != i {
                    assert(before.live[a].cell.timestamp <= last);
                } else if b != i {
                    assert(before.live[b].cell.timestamp <= last);
                }
            }
            assert forall|a: int|
                0 <= a < next.live.len() && (#[trigger] next.live[a]).cell.timestamp
                    == 0 implies next.live[a].cell.value == 0 by {
                assert(a != i);
                assert(before.live[a].cell.timestamp == 0);
            }
        },
    }
}

proof fn lemma_history(events: Seq<Event>)
    requires
        is_history(events),
    ensures
        after(events).wf(),
        forall|m: int|
            m >= after(events).metrics.len() ==> #[trigger] reports(events, m).len() == 0
                && last_stamp(events, m) == 0,
        forall|m: int|
            0 <= m < after(events).metrics.len() ==> tells(
                #[trigger] after(events).metrics[m],
                reports(events, m),
                last_stamp(events, m),
            ),
    decreases events.len(),
{
    if events.len() > 0 {
        let earlier = events.drop_last();
        lemma_history(earlier);
        lemma_wf_kept(events);
        let metrics = after(earlier);
        let next = after(events);
        assert forall|m: int| m >= next.metrics.len() implies #[trigger] reports(events, m).len()
            == 0 && last_stamp(events, m) == 0 by {
            assert(metrics.metrics.len() <= next.metrics.len());
            assert(reports(earlier, m).len() == 0);
        }
        assert forall|m: int| 0 <= m < next.metrics.len() implies tells(
            #[trigger] next.metrics[m],
            reports(events, m),
            last_stamp(events, m),
        ) by {
            lemma_event(events, m);
        }
    }
}

proof fn lemma_event(events: Seq<Event>, m: int)
    requires
        events.len() > 0,
        can_happen(events),
        after(events.drop_last()).wf(),
        0 <= m < after(events).metrics.len(),
        m < after(events.drop_last()).metrics.len() ==> tells(
            after(events.drop_last()).metrics[m],
            reports(events.drop_last(), m),
            last_stamp(events.drop_last(), m),
        ),
        m >= after(events.drop_last()).metrics.len() ==> reports(events.drop_last(), m).len() == 0
            && last_stamp(events.drop_last(), m) == 0,
    ensures
        tells(after(events).metrics[m], reports(events, m), last_stamp(events, m)),
{
    let metrics = after(events.drop_last());
    let told = reports(events.drop_last(), m);
    let last = last_stamp(events.drop_last(), m);
    match events.last() {
        Event::Register(spec) => {
            if m == metrics.metrics.len() {
                assert(after(events).metrics[m].total() == after(events).metrics[m].compacted);
            }
        },
        Event::Take(to) => {
            if to == m {
                lemma_new_cell_tells_nothing(metrics, m, told, last);
            }
        },
        Event::Report { m: to, id, report, now } => {
            if to == m {
                lemma_report_is_told(metrics, m, id, report, now, told, last);
            }
        },
        Event::Share { m: to, id } => {
            if let Some(cell) = metrics.cell(to, id) {
                if to == m {
                    lemma_holders_tell_nothing(
                        metrics,
                        m,
                        id,
                        (cell.holders + 1) as u64,
                        told,
                        last,
                    );
                }
            }
        },
        Event::Release { m: to, id } => {
            if let Some(cell) = metrics.cell(to, id) {
                if to == m {
                    let holders: u64 = if cell.holders > 0 {
                        (cell.holders - 1) as u64
                    } else {
                        0
                    };
                    lemma_holders_tell_nothing(metrics, m, id, holders, told, last);
                }
            }
        },
        Event::Snapshot => {
            lemma_compacting_tells_nothing(metrics.metrics[m], told, last);
        },
    }
}

/// A snapshot tells everything that was ever reported to a metric, and nothing
/// else: however reporters came and went and whenever it was read before, a
/// metric that nobody reported to has no value, a sum is what was added less
/// what was taken, a maximum is the highest value that was recorded, and a gauge
/// is the value that was set last.
pub proof fn law_snapshot_tells_the_history(events: Seq<Event>, m: int)
    requires
        is_history(events),
        0 <= m < after(events).metrics.len(),
    ensures
        ({
            let read = after(events).snapshot()[m];
            match told(read.agg, reports(events, m)) {
                Some(value) => read.value is Some && read.value->0 == value,
                None => read.value is None,
            }
        }),
{
    lemma_history(events);
    let metric = after(events).metrics[m];
    assert(tells(metric, reports(events, m), last_stamp(events, m)));
    law_snapshot_reads_total(metric);
}

} // verus!
