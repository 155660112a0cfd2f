//! What becomes of what tasks report to the metrics of their nodes.

use crate::executor::attribution::{AttributionGuard, TaskAttribution, ThreadContext};
use crate::metrics::custom::{AggMode, Cell, Compacted, CustomMetric, CustomMetrics, LiveCell, MetricSpec, MetricUnit};
use crate::metrics::kind::{Gauge, Max, Sum};
use crate::metrics::registry::{attribute_tasks_to_node, GraphTable, Metric, MetricReporter, NodeAttribution, NodeMetricsRegistry};
use vstd::prelude::*;

#[allow(unused_imports)]
use crate::keys::{rivals, slot_of};
#[allow(unused_imports)]
use crate::live_timer::LiveTimer;
#[allow(unused_imports)]
use crate::metrics::custom::{ended, find_cell, held, larger, CustomMetricsView, MetricSpecView, MetricStateView};
#[allow(unused_imports)]
use crate::metrics::custom_laws::{law_gauge_is_latest, law_max_is_highest, law_reading_means_report, law_snapshot_reads_total, law_sum_is_net, lemma_set_cell, stamps_tell_apart, sum_values, wrapped};
#[allow(unused_imports)]
use crate::metrics::graph::{get_or, no_custom, GraphMetricsView};
#[allow(unused_imports)]
use crate::metrics::registry::{graph_views, graphs_wf, reported, with_custom_of, MetricRef};

verus! {

/// One more cell counts as its metric says: it is added, it counts where it is
/// the higher, or it counts where it was written no earlier. What was reported
/// stays reported, as of the latest report.
pub proof fn law_cell_counts_as_its_metric_says(
    agg: AggMode,
    compacted: Compacted,
    cell: &Cell,
    folded: Compacted,
)
    requires
        call_ensures(AggMode::fold, (agg, compacted, cell), folded),
    ensures
        folded.timestamp >= compacted.timestamp,
        folded.timestamp >= cell.timestamp,
        folded.timestamp == compacted.timestamp || folded.timestamp == cell.timestamp,
        agg == AggMode::Sum ==> (folded.value - compacted.value - cell.value)
            % 0x1_0000_0000_0000_0000 == 0,
        agg == AggMode::Max ==> folded.value >= compacted.value && folded.value >= cell.value && (
        folded.value == compacted.value || folded.value == cell.value),
        agg == AggMode::Latest && cell.timestamp >= compacted.timestamp ==> folded.value
            == cell.value,
        agg == AggMode::Latest && cell.timestamp < compacted.timestamp ==> folded.value
            == compacted.value,
{
}

/// A cell that was not written counts for nothing: what is read of a metric is
/// the same with it and without it.
pub proof fn law_unwritten_cell_counts_for_nothing(
    agg: AggMode,
    identity: i64,
    cell: Cell,
    compacted: Compacted,
    folded: Compacted,
    before: Option<i64>,
    after: Option<i64>,
)
    requires
        call_ensures(AggMode::identity, (agg,), identity),
        call_ensures(Cell::new, (identity,), cell),
        call_ensures(AggMode::fold, (agg, compacted, &cell), folded),
        call_ensures(Compacted::value, (&compacted,), before),
        call_ensures(Compacted::value, (&folded,), after),
    ensures
        after == before,
        cell.timestamp == 0,
{
}

/// A metric has a value once anything was reported, whatever the value is.
pub proof fn law_value_means_a_report(compacted: &Compacted, value: Option<i64>)
    requires
        call_ensures(Compacted::value, (compacted,), value),
    ensures
        compacted.timestamp == 0 ==> value is None,
        compacted.timestamp > 0 ==> value == Some(compacted.value),
{
}

/// A cell that is written bears the time of the write, so that a later write is
/// told from an earlier one and any write from none.
pub proof fn law_stamp_tells_the_time(cell: &mut Cell, now: u64, later: &mut Cell, then: u64)
    requires
        call_ensures(Cell::stamp_now, (cell, now), ()),
        call_ensures(Cell::stamp_now, (later, then), ()),
        now < u64::MAX,
        then < u64::MAX,
    ensures
        final(cell).timestamp > 0,
        now < then <==> final(cell).timestamp < final(later).timestamp,
        final(cell).value == old(cell).value,
{
}

/// A metric is registered under its key once: at the end, where it is new, with
/// nothing reported, and where it was otherwise. Metrics that are there stay as
/// they are.
pub proof fn law_metric_is_registered_once(
    metrics: &mut CustomMetrics,
    spec: MetricSpec,
    metric_idx: usize,
    i: int,
)
    requires
        call_ensures(CustomMetrics::register, (metrics, spec), metric_idx),
        0 <= i < old(metrics)@.metrics.len(),
    ensures
        metric_idx < final(metrics)@.metrics.len(),
        final(metrics)@.metrics[metric_idx as int].spec.key == spec.key@,
        final(metrics)@.metrics[metric_idx as int].spec.unit == spec.unit,
        final(metrics)@.metrics[metric_idx as int].spec.agg == spec.agg,
        final(metrics)@.metrics[i] == old(metrics)@.metrics[i],
        old(metrics)@.metrics[i].spec.key == spec.key@ ==> final(metrics)@.metrics.len() == old(metrics)@.metrics.len(),
        metric_idx == old(metrics)@.metrics.len() ==> final(metrics)@.metrics[metric_idx as int].compacted.timestamp == 0 && final(metrics)@.metrics[metric_idx as int].live.len() == 0 && final(metrics)@.metrics.len() == old(metrics)@.metrics.len() + 1,
        metric_idx != old(metrics)@.metrics.len() ==> final(metrics)@.metrics == old(metrics)@.metrics,
{
    if old(metrics)@.metrics[i].spec.key == spec@.key {
        assert(old(metrics)@.is_at(spec@.key, i));
        assert(old(metrics)@.is_registered(spec@.key));
    }
    if !old(metrics)@.is_registered(spec@.key) {
        assert(metric_idx == old(metrics)@.metrics.len());
    } else {
        let k = choose|k: int| old(metrics)@.is_at(spec@.key, k);
        assert(final(metrics)@ == old(metrics)@);
    }
}

/// A registration conflicts where the same key is registered with another unit
/// or another way to combine, and nowhere else.
pub proof fn law_same_key_must_mean_the_same(
    metrics: &CustomMetrics,
    spec: &MetricSpec,
    differently: bool,
)
    requires
        call_ensures(CustomMetrics::is_registered_differently, (metrics, spec), differently),
    ensures
        differently <==> exists|i: int|
            0 <= i < metrics@.metrics.len() && (#[trigger] metrics@.metrics[i]).spec.key
                == spec.key@ && (metrics@.metrics[i].spec.unit != spec.unit
                || metrics@.metrics[i].spec.agg != spec.agg),
{
    if differently {
        let i = choose|i: int| #[trigger]
            metrics@.is_at(spec@.key, i) && metrics@.metrics[i].spec != spec@;
        let known = metrics@.metrics[i].spec;
        assert(!(known.unit == spec.unit && known.agg == spec.agg)) by {
            if known.unit == spec.unit && known.agg == spec.agg {
                assert(known =~= spec@);
            }
        }
    }
    if exists|i: int|
        0 <= i < metrics@.metrics.len() && (#[trigger] metrics@.metrics[i]).spec.key == spec.key@
            && (metrics@.metrics[i].spec.unit != spec.unit || metrics@.metrics[i].spec.agg
            != spec.agg) {
        let i = choose|i: int|
            0 <= i < metrics@.metrics.len() && (#[trigger] metrics@.metrics[i]).spec.key
                == spec.key@ && (metrics@.metrics[i].spec.unit != spec.unit
                || metrics@.metrics[i].spec.agg != spec.agg);
        assert(metrics@.is_at(spec@.key, i) && metrics@.metrics[i].spec != spec@);
    }
}

/// A cell that is taken is a new one at the end of its metric, not written yet
/// and held by one reporter. Everything else stays.
pub proof fn law_taken_cell_is_new(metrics: &mut CustomMetrics, metric_idx: usize, id: u64, m: int)
    requires
        call_ensures(CustomMetrics::new_cell, (metrics, metric_idx), id),
        old(metrics)@.wf(),
        metric_idx < old(metrics)@.metrics.len(),
        0 <= m < old(metrics)@.metrics.len(),
    ensures
        final(metrics)@.metrics.len() == old(metrics)@.metrics.len(),
        m != metric_idx ==> final(metrics)@.metrics[m] == old(metrics)@.metrics[m],
        ({
            let before = old(metrics)@.metrics[metric_idx as int];
            let after = final(metrics)@.metrics[metric_idx as int];
            &&& after.spec == before.spec
            &&& after.compacted == before.compacted
            &&& after.live.len() == before.live.len() + 1
            &&& after.live.drop_last() == before.live
            &&& after.live.last().id == id
            &&& after.live.last().cell.timestamp == 0
            &&& after.live.last().holders == 1
            &&& forall|i: int|
                0 <= i < before.live.len() ==> (#[trigger] before.live[i]).id != id
        }),
{
    let before = old(metrics)@.metrics[metric_idx as int];
    let after = final(metrics)@.metrics[metric_idx as int];
    assert(after.live.drop_last() =~= before.live);
    assert forall|i: int| 0 <= i < before.live.len() implies (#[trigger] before.live[i]).id != id by {
        assert(old(metrics)@.metrics[metric_idx as int].live[i].id < old(metrics)@.next_cell);
    }
}

proof fn lemma_cell_at(metrics: CustomMetricsView, m: int, i: int, cell: LiveCell)
    requires
        metrics.wf(),
        0 <= m < metrics.metrics.len(),
        0 <= i < metrics.metrics[m].live.len(),
        cell.id == metrics.metrics[m].live[i].id,
    ensures
        metrics.cell(m, metrics.metrics[m].live[i].id) == Some(metrics.metrics[m].live[i]),
        metrics.cell_set(m, cell).metrics.len() == metrics.metrics.len(),
        metrics.cell_set(m, cell).metrics[m] == (MetricStateView {
            live: metrics.metrics[m].live.update(i, cell),
            ..metrics.metrics[m]
        }),
        forall|k: int|
            0 <= k < metrics.metrics.len() && k != m ==> #[trigger] metrics.cell_set(
                m,
                cell,
            ).metrics[k] == metrics.metrics[k],
{
    let live = metrics.metrics[m].live;
    lemma_find_at(live, i);
    let found = lemma_set_cell(metrics, m, live[i].id, cell);
    if found != i {
        if found < i {
            assert(metrics.metrics[m].live[found].id != metrics.metrics[m].live[i].id);
        } else {
            assert(metrics.metrics[m].live[i].id != metrics.metrics[m].live[found].id);
        }
    }
}

proof fn lemma_find_at(live: Seq<LiveCell>, i: int)
    requires
        0 <= i < live.len(),
        forall|a: int, b: int|
            0 <= a < b < live.len() ==> (#[trigger] live[a]).id != (#[trigger] live[b]).id,
    ensures
        find_cell(live, live[i].id) == Some(live[i]),
    decreases live.len(),
{
    if i < live.len() - 1 {
        let rest = live.drop_last();
        assert(live[i].id != live[live.len() - 1].id);
        assert forall|a: int, b: int| 0 <= a < b < rest.len() implies (#[trigger] rest[a]).id != (
        #[trigger] rest[b]).id by {
            assert(live[a].id != live[b].id);
        }
        lemma_find_at(rest, i);
    }
}

/// A write changes the cell that is written, to the value and the time of the
/// write, and nothing else.
pub proof fn law_write_changes_one_cell(
    metrics: &mut CustomMetrics,
    metric_idx: usize,
    i: int,
    value: i64,
    now: u64,
    m: int,
)
    requires
        old(metrics)@.wf(),
        metric_idx < old(metrics)@.metrics.len(),
        0 <= i < old(metrics)@.metrics[metric_idx as int].live.len(),
        call_ensures(
            CustomMetrics::write_cell,
            (
                metrics,
                metric_idx,
                old(metrics)@.metrics[metric_idx as int].live[i].id,
                value,
                now,
            ),
            (),
        ),
        now < u64::MAX,
        0 <= m < old(metrics)@.metrics.len(),
    ensures
        final(metrics)@.metrics.len() == old(metrics)@.metrics.len(),
        m != metric_idx ==> final(metrics)@.metrics[m] == old(metrics)@.metrics[m],
        ({
            let before = old(metrics)@.metrics[metric_idx as int];
            let after = final(metrics)@.metrics[metric_idx as int];
            &&& after.spec == before.spec
            &&& after.compacted == before.compacted
            &&& after.live.len() == before.live.len()
            &&& after.live[i].cell.value == value
            &&& after.live[i].cell.timestamp == now + 1
            &&& after.live[i].id == before.live[i].id
            &&& after.live[i].holders == before.live[i].holders
            &&& forall|k: int|
                0 <= k < before.live.len() && k != i ==> #[trigger] after.live[k]
                    == before.live[k]
        }),
{
    let live = old(metrics)@.metrics[metric_idx as int].live;
    let cell = LiveCell { cell: Cell { value, timestamp: (now + 1) as u64 }, ..live[i] };
    lemma_cell_at(old(metrics)@, metric_idx as int, i, cell);
}

/// A reporter that joins or leaves a cell is counted there, and changes nothing
/// of what was reported.
pub proof fn law_reporters_of_a_cell_are_counted(
    held_more: &mut CustomMetrics,
    held_less: &mut CustomMetrics,
    metric_idx: usize,
    i: int,
    id: u64,
)
    requires
        old(held_more)@.wf(),
        *old(held_less) == *old(held_more),
        metric_idx < old(held_more)@.metrics.len(),
        0 <= i < old(held_more)@.metrics[metric_idx as int].live.len(),
        id == old(held_more)@.metrics[metric_idx as int].live[i].id,
        0 < old(held_more)@.metrics[metric_idx as int].live[i].holders < u64::MAX,
        call_ensures(CustomMetrics::hold_cell, (held_more, metric_idx, id), ()),
        call_ensures(CustomMetrics::release_cell, (held_less, metric_idx, id), ()),
    ensures
        ({
            let before = old(held_more)@.metrics[metric_idx as int];
            let more = final(held_more)@.metrics[metric_idx as int];
            let less = final(held_less)@.metrics[metric_idx as int];
            &&& more.live.len() == before.live.len() && less.live.len() == before.live.len()
            &&& more.live[i].holders == before.live[i].holders + 1
            &&& less.live[i].holders == before.live[i].holders - 1
            &&& more.compacted == before.compacted && less.compacted == before.compacted
            &&& forall|k: int|
                0 <= k < before.live.len() ==> (#[trigger] before.live[k]).cell
                    == more.live[k].cell && before.live[k].cell == less.live[k].cell
                    && before.live[k].id == more.live[k].id && before.live[k].id
                    == less.live[k].id
            &&& forall|k: int|
                0 <= k < before.live.len() && k != i ==> (#[trigger] before.live[k]).holders
                    == more.live[k].holders && before.live[k].holders == less.live[k].holders
        }),
{
    let live = old(held_more)@.metrics[metric_idx as int].live;
    lemma_cell_at(
        old(held_more)@,
        metric_idx as int,
        i,
        LiveCell { holders: (live[i].holders + 1) as u64, ..live[i] },
    );
    lemma_cell_at(
        old(held_more)@,
        metric_idx as int,
        i,
        LiveCell { holders: (live[i].holders - 1) as u64, ..live[i] },
    );
}

proof fn lemma_held_is_filter(cells: Seq<LiveCell>)
    ensures
        held(cells) == cells.filter(|c: LiveCell| c.holders > 0),
    decreases cells.len(),
{
    reveal(Seq::filter);
    if cells.len() > 0 {
        lemma_held_is_filter(cells.drop_last());
    }
}

/// A snapshot tells of each metric, in the order of registration, what all of
/// its tasks reported: a sum is what ended tasks left and the others hold, a
/// maximum the highest of these, and a gauge the one written last. It has a value
/// if and only if anything was ever reported. Cells that can still be written to
/// stay as they are, and the others leave their share behind.
pub proof fn law_snapshot_combines_what_tasks_reported(
    metrics: &mut CustomMetrics,
    readings: Vec<CustomMetric>,
    m: int,
)
    requires
        call_ensures(CustomMetrics::snapshot_and_compact, (metrics,), readings),
        0 <= m < old(metrics)@.metrics.len(),
    ensures
        readings@.len() == old(metrics)@.metrics.len(),
        final(metrics)@.metrics.len() == old(metrics)@.metrics.len(),
        ({
            let before = old(metrics)@.metrics[m];
            let after = final(metrics)@.metrics[m];
            let reading = readings@[m];
            let anything = before.compacted.timestamp != 0 || exists|i: int|
                0 <= i < before.live.len() && (#[trigger] before.live[i]).cell.timestamp != 0;
            let unambiguous = before.spec.agg != AggMode::Latest || stamps_tell_apart(before.live);
            &&& reading.key@ == before.spec.key
            &&& reading.unit == before.spec.unit
            &&& reading.agg == before.spec.agg
            &&& after.spec == before.spec
            &&& after.live == before.live.filter(|c: LiveCell| c.holders > 0)
            &&& unambiguous ==> (reading.value is Some <==> anything)
            &&& before.spec.agg == AggMode::Sum && anything ==> reading.value is Some && (
            reading.value->0 - before.compacted.value - sum_values(before.live))
                % 0x1_0000_0000_0000_0000 == 0
            &&& before.spec.agg == AggMode::Max && anything ==> {
                &&& reading.value is Some
                &&& reading.value->0 >= before.compacted.value
                &&& forall|i: int|
                    0 <= i < before.live.len() ==> reading.value->0 >= (
                    #[trigger] before.live[i]).cell.value
                &&& reading.value->0 == before.compacted.value || exists|i: int|
                    0 <= i < before.live.len() && reading.value->0 == (
                    #[trigger] before.live[i]).cell.value
            }
            &&& before.spec.agg == AggMode::Latest && anything && unambiguous ==> {
                &&& reading.value is Some
                &&& (reading.value->0 == before.compacted.value && forall|k: int|
                    0 <= k < before.live.len() ==> (#[trigger] before.live[k]).cell.timestamp
                        <= before.compacted.timestamp) || exists|i: int|
                    0 <= i < before.live.len() && reading.value->0 == (
                    #[trigger] before.live[i]).cell.value && before.live[i].cell.timestamp
                        >= before.compacted.timestamp && forall|k: int|
                        0 <= k < before.live.len() ==> (#[trigger] before.live[k]).cell.timestamp
                            <= before.live[i].cell.timestamp
            }
        }),
{
    let before = old(metrics)@.metrics[m];
    let reading = readings@[m];
    let told = readings@.map_values(|m: CustomMetric| m@);
    assert(told == old(metrics)@.snapshot());
    assert(told.len() == readings@.len());
    assert(told[m] == reading@);
    assert(reading@ == before.snapshot());
    lemma_held_is_filter(before.live);
    if before.spec.agg != AggMode::Latest || stamps_tell_apart(before.live) {
        law_snapshot_reads_total(before);
        law_reading_means_report(before);
        let total = before.total();
        match before.spec.agg {
            AggMode::Sum => {
                law_sum_is_net(before.compacted, before.live);
                lemma_wrapped_is_congruent(before.compacted.value + sum_values(before.live));
            },
            AggMode::Max => {
                law_max_is_highest(before.compacted, before.live);
            },
            AggMode::Latest => {
                law_gauge_is_latest(before.compacted, before.live);
                if total != before.compacted {
                    let i = choose|i: int|
                        0 <= i < before.live.len() && total.value == (
                        #[trigger] before.live[i]).cell.value && total.timestamp
                            == before.live[i].cell.timestamp;
                    assert(total.value == before.live[i].cell.value);
                }
            },
        }
    }
}

proof fn lemma_wrapped_is_congruent(x: int)
    ensures
        (wrapped(x) - x) % 0x1_0000_0000_0000_0000 == 0,
{
    let m: int = 0x1_0000_0000_0000_0000;
    vstd::arithmetic::div_mod::lemma_fundamental_div_mod(x, m);
    let low = x % m;
    let q = x / m;
    if wrapped(x) == low {
        assert(wrapped(x) - x == (-q) * m) by (nonlinear_arith)
            requires
                wrapped(x) == low,
                x == m * q + low,
        ;
        vstd::arithmetic::div_mod::lemma_mod_multiples_basic(-q, m);
    } else {
        assert(wrapped(x) - x == (-q - 1) * m) by (nonlinear_arith)
            requires
                wrapped(x) == low - m,
                x == m * q + low,
        ;
        vstd::arithmetic::div_mod::lemma_mod_multiples_basic(-q - 1, m);
    }
}

/// `after` are the graphs `before` with one cell changed: that of the metric
/// `metric` under its node's key, at position `i`.
pub open spec fn changes_one_cell(
    before: Map<u64, GraphMetricsView>,
    metric: MetricRef,
    i: int,
    after: Map<u64, GraphMetricsView>,
) -> bool {
    let known = before[metric.graph].custom[metric.key];
    let written = after[metric.graph].custom[metric.key];
    let m = metric.metric_idx as int;
    &&& after.dom() == before.dom()
    &&& forall|g: u64| #[trigger]
        before.contains_key(g) && g != metric.graph ==> after[g] == before[g]
    &&& after[metric.graph] == (GraphMetricsView {
        custom: after[metric.graph].custom,
        ..before[metric.graph]
    })
    &&& after[metric.graph].custom.contains_key(metric.key)
    &&& forall|k: u64| #[trigger]
        before[metric.graph].custom.contains_key(k) && k != metric.key ==> after[
            metric.graph
        ].custom.contains_key(k) && after[metric.graph].custom[k] == before[metric.graph].custom[k]
    &&& written.metrics.len() == known.metrics.len()
    &&& forall|k: int|
        0 <= k < known.metrics.len() && k != m ==> #[trigger] written.metrics[k]
            == known.metrics[k]
    &&& written.metrics[m].spec == known.metrics[m].spec
    &&& written.metrics[m].compacted == known.metrics[m].compacted
    &&& written.metrics[m].live.len() == known.metrics[m].live.len()
    &&& forall|k: int|
        0 <= k < known.metrics[m].live.len() && k != i ==> #[trigger] written.metrics[m].live[k]
            == known.metrics[m].live[k]
    &&& written.metrics[m].live[i].id == known.metrics[m].live[i].id
}

/// A reporter whose cell is there, at position `i` of its metric.
pub open spec fn reports_to(
    target: Option<(MetricRef, u64)>,
    views: Map<u64, GraphMetricsView>,
    metric: MetricRef,
    i: int,
) -> bool {
    let custom = views[metric.graph].custom[metric.key];
    let live = custom.metrics[metric.metric_idx as int].live;
    &&& target is Some && (target->0).0 == metric
    &&& views.contains_key(metric.graph)
    &&& views[metric.graph].custom.contains_key(metric.key)
    &&& metric.metric_idx < custom.metrics.len()
    &&& 0 <= i < live.len()
    &&& live[i].id == (target->0).1
}

proof fn lemma_custom_replaced(
    graphs: GraphTable,
    metric: MetricRef,
    i: int,
    cell: LiveCell,
    id: u64,
)
    requires
        graphs_wf(graphs),
        reports_to(Some((metric, id)), graph_views(graphs), metric, i),
        cell.id == id,
    ensures
        ({
            let views = graph_views(graphs);
            let custom = views[metric.graph].custom[metric.key];
            let after = with_custom_of(
                views,
                metric.graph,
                metric.key,
                custom.cell_set(metric.metric_idx as int, cell),
            );
            &&& metric.custom(views) == Some(custom)
            &&& custom.cell(metric.metric_idx as int, id) == Some(
                custom.metrics[metric.metric_idx as int].live[i],
            )
            &&& changes_one_cell(views, metric, i, after)
            &&& after[metric.graph].custom[metric.key].metrics[metric.metric_idx as int].live[i]
                == cell
        }),
{
    let views = graph_views(graphs);
    assert(graphs@.contains_key(metric.graph));
    graphs@[metric.graph].lemma_wf();
    let table = views[metric.graph].custom;
    let custom = table[metric.key];
    assert(custom.wf());
    let m = metric.metric_idx as int;
    lemma_cell_at(custom, m, i, cell);
    let after = with_custom_of(views, metric.graph, metric.key, custom.cell_set(m, cell));
    assert(after.dom() =~= views.dom());
    assert forall|k: u64| #[trigger] table.contains_key(k) && k != metric.key implies !rivals(
        metric.key,
        k,
    ) by {
        assert(table.dom().contains(k) && table.dom().contains(metric.key));
    }
}

/// Adding to a sum adds to the share of the reporter's own task, as of now, and
/// changes nothing else of any metric. The sum goes round at its end.
pub proof fn law_adding_raises_one_share(
    reporter: &MetricReporter<Sum>,
    graphs: &mut GraphTable,
    delta: i64,
    now: u64,
    metric: MetricRef,
    i: int,
)
    requires
        call_ensures(MetricReporter::<Sum>::add, (reporter, graphs, delta, now), ()),
        graphs_wf(*old(graphs)),
        now < u64::MAX,
        reports_to(reporter.target(), graph_views(*old(graphs)), metric, i),
    ensures
        changes_one_cell(graph_views(*old(graphs)), metric, i, graph_views(*final(graphs))),
        ({
            let m = metric.metric_idx as int;
            let before = graph_views(
                *old(graphs),
            )[metric.graph].custom[metric.key].metrics[m].live[i];
            let after = graph_views(
                *final(graphs),
            )[metric.graph].custom[metric.key].metrics[m].live[i];
            &&& (after.cell.value - before.cell.value - delta) % 0x1_0000_0000_0000_0000 == 0
            &&& after.cell.timestamp == now + 1
            &&& after.holders == before.holders
        }),
{
    let live = graph_views(*old(graphs))[metric.graph].custom[metric.key].metrics[
        metric.metric_idx as int
    ].live[i];
    lemma_custom_replaced(
        *old(graphs),
        metric,
        i,
        LiveCell {
            cell: Cell {
                value: live.cell.value.wrapping_add(delta),
                timestamp: (now + 1) as u64,
            },
            ..live
        },
        live.id,
    );
}

/// Subtracting from a sum lowers the share of the reporter's own task in the same
/// way.
pub proof fn law_subtracting_lowers_one_share(
    reporter: &MetricReporter<Sum>,
    graphs: &mut GraphTable,
    delta: i64,
    now: u64,
    metric: MetricRef,
    i: int,
)
    requires
        call_ensures(MetricReporter::<Sum>::sub, (reporter, graphs, delta, now), ()),
        graphs_wf(*old(graphs)),
        now < u64::MAX,
        reports_to(reporter.target(), graph_views(*old(graphs)), metric, i),
    ensures
        changes_one_cell(graph_views(*old(graphs)), metric, i, graph_views(*final(graphs))),
        ({
            let m = metric.metric_idx as int;
            let before = graph_views(
                *old(graphs),
            )[metric.graph].custom[metric.key].metrics[m].live[i];
            let after = graph_views(
                *final(graphs),
            )[metric.graph].custom[metric.key].metrics[m].live[i];
            &&& (after.cell.value - before.cell.value + delta) % 0x1_0000_0000_0000_0000 == 0
            &&& after.cell.timestamp == now + 1
            &&& after.holders == before.holders
        }),
{
    let live = graph_views(*old(graphs))[metric.graph].custom[metric.key].metrics[
        metric.metric_idx as int
    ].live[i];
    lemma_custom_replaced(
        *old(graphs),
        metric,
        i,
        LiveCell {
            cell: Cell {
                value: live.cell.value.wrapping_sub(delta),
                timestamp: (now + 1) as u64,
            },
            ..live
        },
        live.id,
    );
}

/// Recording a value raises the share of the reporter's own task to it, and never
/// lowers it.
pub proof fn law_recording_keeps_the_higher(
    reporter: &MetricReporter<Max>,
    graphs: &mut GraphTable,
    value: i64,
    now: u64,
    metric: MetricRef,
    i: int,
)
    requires
        call_ensures(MetricReporter::<Max>::record, (reporter, graphs, value, now), ()),
        graphs_wf(*old(graphs)),
        now < u64::MAX,
        reports_to(reporter.target(), graph_views(*old(graphs)), metric, i),
    ensures
        changes_one_cell(graph_views(*old(graphs)), metric, i, graph_views(*final(graphs))),
        ({
            let m = metric.metric_idx as int;
            let before = graph_views(
                *old(graphs),
            )[metric.graph].custom[metric.key].metrics[m].live[i];
            let after = graph_views(
                *final(graphs),
            )[metric.graph].custom[metric.key].metrics[m].live[i];
            &&& after.cell.value >= before.cell.value
            &&& after.cell.value >= value
            &&& after.cell.value == before.cell.value || after.cell.value == value
            &&& after.cell.timestamp == now + 1
            &&& after.holders == before.holders
        }),
{
    let live = graph_views(*old(graphs))[metric.graph].custom[metric.key].metrics[
        metric.metric_idx as int
    ].live[i];
    lemma_custom_replaced(
        *old(graphs),
        metric,
        i,
        LiveCell {
            cell: Cell {
                value: larger(live.cell.value as int, value as int) as i64,
                timestamp: (now + 1) as u64,
            },
            ..live
        },
        live.id,
    );
}

/// Setting a gauge sets the share of the reporter's own task, whatever it was.
pub proof fn law_setting_replaces_one_share(
    reporter: &MetricReporter<Gauge>,
    graphs: &mut GraphTable,
    value: i64,
    now: u64,
    metric: MetricRef,
    i: int,
)
    requires
        call_ensures(MetricReporter::<Gauge>::set, (reporter, graphs, value, now), ()),
        graphs_wf(*old(graphs)),
        now < u64::MAX,
        reports_to(reporter.target(), graph_views(*old(graphs)), metric, i),
    ensures
        changes_one_cell(graph_views(*old(graphs)), metric, i, graph_views(*final(graphs))),
        ({
            let m = metric.metric_idx as int;
            let before = graph_views(
                *old(graphs),
            )[metric.graph].custom[metric.key].metrics[m].live[i];
            let after = graph_views(
                *final(graphs),
            )[metric.graph].custom[metric.key].metrics[m].live[i];
            &&& after.cell.value == value
            &&& after.cell.timestamp == now + 1
            &&& after.holders == before.holders
        }),
{
    let live = graph_views(*old(graphs))[metric.graph].custom[metric.key].metrics[
        metric.metric_idx as int
    ].live[i];
    lemma_custom_replaced(
        *old(graphs),
        metric,
        i,
        LiveCell { cell: Cell { value, timestamp: (now + 1) as u64 }, ..live },
        live.id,
    );
}

/// A counter, a maximum and a gauge are combined as they are called: by adding
/// up, by taking the highest, and by taking the latest.
pub proof fn law_metrics_are_combined_as_they_are_called(
    registry: &NodeMetricsRegistry,
    sums: &mut GraphTable,
    maxima: &mut GraphTable,
    gauges: &mut GraphTable,
    key: &str,
    unit: MetricUnit,
    sum: Metric<Sum>,
    max: Metric<Max>,
    gauge: Metric<Gauge>,
    graph: u64,
)
    requires
        call_ensures(NodeMetricsRegistry::new_counter, (registry, sums, key, unit), sum),
        call_ensures(NodeMetricsRegistry::new_max, (registry, maxima, key, unit), max),
        call_ensures(NodeMetricsRegistry::new_gauge, (registry, gauges, key, unit), gauge),
        registry.graph_metrics == Some(graph),
        graph_views(*old(sums)).contains_key(graph),
        graph_views(*old(maxima)).contains_key(graph),
        graph_views(*old(gauges)).contains_key(graph),
        registry.can_register(*old(sums), key@, unit, AggMode::Sum),
        registry.can_register(*old(maxima), key@, unit, AggMode::Max),
        registry.can_register(*old(gauges), key@, unit, AggMode::Latest),
    ensures
        sum.target() is Some && max.target() is Some && gauge.target() is Some,
        is_registered_as(*final(sums), sum.target()->0, *registry, graph, key@, unit, AggMode::Sum),
        is_registered_as(
            *final(maxima),
            max.target()->0,
            *registry,
            graph,
            key@,
            unit,
            AggMode::Max,
        ),
        is_registered_as(
            *final(gauges),
            gauge.target()->0,
            *registry,
            graph,
            key@,
            unit,
            AggMode::Latest,
        ),
{
    lemma_registered(*old(sums), *registry, graph, key@, unit, AggMode::Sum, sum.target(), *final(sums));
    lemma_registered(*old(maxima), *registry, graph, key@, unit, AggMode::Max, max.target(), *final(maxima));
    lemma_registered(*old(gauges), *registry, graph, key@, unit, AggMode::Latest, gauge.target(), *final(gauges));
}

/// The metric is one of the node's, under this key and with this unit and way to
/// combine.
pub open spec fn is_registered_as(
    graphs: GraphTable,
    metric: MetricRef,
    registry: NodeMetricsRegistry,
    graph: u64,
    key: Seq<char>,
    unit: MetricUnit,
    agg: AggMode,
) -> bool {
    let views = graph_views(graphs);
    let metrics = views[graph].custom[registry.graph_key].metrics;
    &&& metric.graph == graph
    &&& metric.key == registry.graph_key
    &&& views.contains_key(graph)
    &&& views[graph].custom.contains_key(registry.graph_key)
    &&& metric.metric_idx < metrics.len()
    &&& metrics[metric.metric_idx as int].spec.key == key
    &&& metrics[metric.metric_idx as int].spec.unit == unit
    &&& metrics[metric.metric_idx as int].spec.agg == agg
}

proof fn lemma_registered(
    before: GraphTable,
    registry: NodeMetricsRegistry,
    graph: u64,
    key: Seq<char>,
    unit: MetricUnit,
    agg: AggMode,
    metric: Option<MetricRef>,
    after: GraphTable,
)
    requires
        registry.graph_metrics == Some(graph),
        graph_views(before).contains_key(graph),
        registry.can_register(before, key, unit, agg),
        registry.registers(
            graph_views(before),
            MetricSpecView { key, unit, agg },
            metric,
            graph_views(after),
        ),
    ensures
        metric is Some,
        is_registered_as(after, metric->0, registry, graph, key, unit, agg),
{
    let spec = MetricSpecView { key, unit, agg };
    let known = get_or(graph_views(before)[graph].custom, registry.graph_key, no_custom());
    let custom = if known.is_registered(key) {
        known
    } else {
        known.extended(spec)
    };
    let idx = metric->0.metric_idx as int;
    assert(custom.is_at(key, idx));
    if known.is_registered(key) {
        assert(known.is_at(spec.key, idx));
        assert(!known.conflicts(spec));
        assert(known.metrics[idx].spec == spec);
    } else if idx < known.metrics.len() {
        assert(known.is_at(key, idx));
    }
}

/// A task that is spawned for a node is one more of the node's tasks, of which
/// nothing was read yet. No other node or graph is told, and none at all where
/// the graph is gone.
pub proof fn law_node_is_credited_with_its_tasks(
    attribution: &NodeAttribution,
    metrics: u64,
    graphs: &mut GraphTable,
    graph: u64,
    node: u64,
)
    requires
        call_ensures(
            <NodeAttribution as TaskAttribution>::task_spawned,
            (attribution, metrics, graphs),
            (),
        ),
        graph_views(*old(graphs)).contains_key(graph),
        node % 0x1_0000_0000 == attribution.key % 0x1_0000_0000 ==> node == attribution.key,
    ensures
        graph_views(*final(graphs)).contains_key(graph),
        graph != attribution.graph ==> graph_views(*final(graphs))[graph] == graph_views(
            *old(graphs),
        )[graph],
        graph == attribution.graph ==> {
            let before = graph_views(*old(graphs))[graph];
            let after = graph_views(*final(graphs))[graph];
            &&& after == (GraphMetricsView { tasks: after.tasks, ..before })
            &&& node != attribution.key ==> (after.tasks.contains_key(node)
                <==> before.tasks.contains_key(node)) && (before.tasks.contains_key(node)
                ==> after.tasks[node] == before.tasks[node])
            &&& after.tasks.contains_key(attribution.key)
            &&& ({
                let tasks = after.tasks[attribution.key];
                &&& tasks.len() >= 1
                &&& tasks.last().metrics == metrics
                &&& tasks.last().applied.polls == 0 && tasks.last().applied.stolen_polls == 0
                    && tasks.last().applied.poll_time_ns == 0 && tasks.last().applied.poll_cpu_ns
                    == 0
                &&& !tasks.last().seen_done
                &&& before.tasks.contains_key(attribution.key) ==> tasks.drop_last()
                    == before.tasks[attribution.key]
                &&& !before.tasks.contains_key(attribution.key) ==> tasks.len() == 1
            })
        },
{
    if graph == attribution.graph {
        let before = graph_views(*old(graphs))[graph];
        let after = graph_views(*final(graphs))[graph];
        let tasks = after.tasks[attribution.key];
        if before.tasks.contains_key(attribution.key) {
            assert(tasks.drop_last() =~= before.tasks[attribution.key]);
        }
        assert(slot_of(node) == node % 0x1_0000_0000);
        assert(slot_of(attribution.key) == attribution.key % 0x1_0000_0000);
    }
}

/// A poll for a node is timed in the node's occupancy, where that is tracked: as
/// a session that begins with the poll and ends with it. Nothing else changes.
pub proof fn law_poll_occupies_its_node(
    attribution: &NodeAttribution,
    start: u64,
    graphs: &mut GraphTable,
    opened: bool,
    end: u64,
    later: &mut GraphTable,
    timer: &mut LiveTimer,
    stopping: &mut LiveTimer,
)
    requires
        call_ensures(
            <NodeAttribution as TaskAttribution>::poll_session,
            (attribution, start, graphs),
            opened,
        ),
        *old(later) == *final(graphs),
        call_ensures(
            <NodeAttribution as TaskAttribution>::end_poll_session,
            (attribution, end, later),
            (),
        ),
        graph_views(*old(graphs)).contains_key(attribution.graph),
        graph_views(*old(graphs))[attribution.graph].occupancy.contains_key(attribution.key),
        *old(timer) == graph_views(*old(graphs))[attribution.graph].occupancy[attribution.key],
        old(timer).open() < u64::MAX,
        call_ensures(LiveTimer::start_session, (timer, start), ()),
        *old(stopping) == *final(timer),
        call_ensures(LiveTimer::end_session, (stopping, end), ()),
    ensures
        opened,
        graph_views(*final(graphs))[attribution.graph].occupancy[attribution.key] == *final(timer),
        graph_views(*final(later))[attribution.graph].occupancy[attribution.key] == *final(stopping),
        graph_views(*final(later)).dom() == graph_views(*old(graphs)).dom(),
        forall|g: u64| #[trigger]
            graph_views(*old(graphs)).contains_key(g) && g != attribution.graph ==> graph_views(
                *final(later),
            )[g] == graph_views(*old(graphs))[g],
        ({
            let before = graph_views(*old(graphs))[attribution.graph];
            let after = graph_views(*final(later))[attribution.graph];
            &&& after == (GraphMetricsView { occupancy: after.occupancy, ..before })
            &&& forall|k: u64| #[trigger]
                before.occupancy.contains_key(k) && k != attribution.key
                    ==> after.occupancy.contains_key(k) && after.occupancy[k]
                    == before.occupancy[k]
        }),
{
    let before = graph_views(*old(graphs))[attribution.graph];
    old(timer).law_start_opens(start);
    assert(graph_views(*final(later)).dom() =~= graph_views(*old(graphs)).dom());
}

/// Tasks are attributed to a node of a graph by both, and only while the guard
/// lives. Without a graph they are attributed to nobody.
pub proof fn law_tasks_are_attributed_to_the_node(
    context: &mut ThreadContext<NodeAttribution>,
    graphs: &mut GraphTable,
    key: u64,
    graph: Option<u64>,
    guard: AttributionGuard<NodeAttribution>,
    later: &mut ThreadContext<NodeAttribution>,
)
    requires
        call_ensures(attribute_tasks_to_node, (context, graphs, key, graph), guard),
        *old(later) == *final(context),
        call_ensures(AttributionGuard::<NodeAttribution>::restore, (guard, later), ()),
    ensures
        graph is None ==> final(context).attribution is None && graph_views(*final(graphs))
            == graph_views(*old(graphs)),
        graph is Some ==> final(context).attribution is Some && final(context).attribution->0.graph == graph->0 && final(context).attribution->0.key == key,
        *final(later) == *old(context),
        graph matches Some(g) ==> graph_views(*old(graphs)).contains_key(g) ==> {
            let before = graph_views(*old(graphs))[g];
            let after = graph_views(*final(graphs))[g];
            &&& after.occupancy.contains_key(key)
            &&& before.occupancy.contains_key(key) ==> after.occupancy[key]
                == before.occupancy[key]
            &&& !before.occupancy.contains_key(key) ==> after.occupancy[key].open() == 0
            &&& after == (GraphMetricsView { occupancy: after.occupancy, ..before })
        },
{
    LiveTimer::law_fresh_has_seen_nothing(0);
}

/// A reporter of a metric that is there reports to a cell of its own: one more
/// cell, that no other reporter has, held by this one, and without a report.
pub proof fn law_reporter_gets_a_cell_of_its_own(
    metric: &Metric<Sum>,
    graphs: &mut GraphTable,
    reporter: MetricReporter<Sum>,
    target: MetricRef,
)
    requires
        call_ensures(Metric::<Sum>::reporter, (metric, graphs), reporter),
        graphs_wf(*old(graphs)),
        metric.target() == Some(target),
        graph_views(*old(graphs)).contains_key(target.graph),
        graph_views(*old(graphs))[target.graph].custom.contains_key(target.key),
        target.metric_idx < graph_views(*old(graphs))[target.graph].custom[target.key].metrics.len(),
        graph_views(*old(graphs))[target.graph].custom[target.key].next_cell < u64::MAX,
    ensures
        ({
            let m = target.metric_idx as int;
            let before = graph_views(*old(graphs))[target.graph].custom[target.key];
            let after = graph_views(*final(graphs))[target.graph].custom[target.key];
            let live = before.metrics[m].live;
            &&& reporter.target() is Some
            &&& (reporter.target()->0).0 == target
            &&& forall|i: int|
                0 <= i < live.len() ==> (#[trigger] live[i]).id != (reporter.target()->0).1
            &&& after.metrics.len() == before.metrics.len()
            &&& forall|k: int|
                0 <= k < before.metrics.len() && k != m ==> #[trigger] after.metrics[k]
                    == before.metrics[k]
            &&& after.metrics[m].spec == before.metrics[m].spec
            &&& after.metrics[m].compacted == before.metrics[m].compacted
            &&& after.metrics[m].live.len() == live.len() + 1
            &&& forall|i: int|
                0 <= i < live.len() ==> #[trigger] after.metrics[m].live[i] == live[i]
            &&& after.metrics[m].live[live.len() as int].id == (reporter.target()->0).1
            &&& after.metrics[m].live[live.len() as int].holders == 1
            &&& after.metrics[m].live[live.len() as int].cell.timestamp == 0
        }),
        forall|g: u64| #[trigger]
            graph_views(*old(graphs)).contains_key(g) && g != target.graph ==> graph_views(
                *final(graphs),
            )[g] == graph_views(*old(graphs))[g],
        graph_views(*final(graphs))[target.graph] == (GraphMetricsView {
            custom: graph_views(*final(graphs))[target.graph].custom,
            ..graph_views(*old(graphs))[target.graph]
        }),
{
    assert(old(graphs)@.contains_key(target.graph));
    old(graphs)@[target.graph].lemma_wf();
    assert(graph_views(*old(graphs))[target.graph].custom[target.key].wf());
}

/// Sharing a reporter has its cell held by one more, and changes no report.
pub proof fn law_shared_cell_is_held_by_one_more(
    reporter: &MetricReporter<Sum>,
    graphs: &mut GraphTable,
    other: MetricReporter<Sum>,
    metric: MetricRef,
    i: int,
)
    requires
        call_ensures(MetricReporter::<Sum>::share, (reporter, graphs), other),
        graphs_wf(*old(graphs)),
        reports_to(reporter.target(), graph_views(*old(graphs)), metric, i),
        graph_views(*old(graphs))[metric.graph].custom[metric.key].metrics[
            metric.metric_idx as int
        ].live[i].holders < u64::MAX,
    ensures
        other.target() == reporter.target(),
        changes_one_cell(graph_views(*old(graphs)), metric, i, graph_views(*final(graphs))),
        ({
            let m = metric.metric_idx as int;
            let before = graph_views(
                *old(graphs),
            )[metric.graph].custom[metric.key].metrics[m].live[i];
            let after = graph_views(
                *final(graphs),
            )[metric.graph].custom[metric.key].metrics[m].live[i];
            after.cell == before.cell && after.holders == before.holders + 1
        }),
{
    let live = graph_views(*old(graphs))[metric.graph].custom[metric.key].metrics[
        metric.metric_idx as int
    ].live[i];
    lemma_custom_replaced(
        *old(graphs),
        metric,
        i,
        LiveCell { holders: (live.holders + 1) as u64, ..live },
        live.id,
    );
}

/// Ending a reporter has its cell held by one less. What it reported stays.
pub proof fn law_ended_reporter_leaves_its_share(
    reporter: MetricReporter<Sum>,
    graphs: &mut GraphTable,
    metric: MetricRef,
    i: int,
)
    requires
        call_ensures(MetricReporter::<Sum>::end, (reporter, graphs), ()),
        graphs_wf(*old(graphs)),
        reports_to(reporter.target(), graph_views(*old(graphs)), metric, i),
        graph_views(*old(graphs))[metric.graph].custom[metric.key].metrics[
            metric.metric_idx as int
        ].live[i].holders > 0,
    ensures
        changes_one_cell(graph_views(*old(graphs)), metric, i, graph_views(*final(graphs))),
        ({
            let m = metric.metric_idx as int;
            let before = graph_views(
                *old(graphs),
            )[metric.graph].custom[metric.key].metrics[m].live[i];
            let after = graph_views(
                *final(graphs),
            )[metric.graph].custom[metric.key].metrics[m].live[i];
            after.cell == before.cell && after.holders + 1 == before.holders
        }),
{
    let live = graph_views(*old(graphs))[metric.graph].custom[metric.key].metrics[
        metric.metric_idx as int
    ].live[i];
    lemma_custom_replaced(
        *old(graphs),
        metric,
        i,
        LiveCell { holders: (live.holders - 1) as u64, ..live },
        live.id,
    );
}

/// A reporter that outlives its graph reports to nothing, and so does one of a
/// metric that is not collected.
pub proof fn law_reports_to_a_gone_graph_are_dropped(
    sum: &MetricReporter<Sum>,
    max: &MetricReporter<Max>,
    gauge: &MetricReporter<Gauge>,
    added: &mut GraphTable,
    taken: &mut GraphTable,
    recorded: &mut GraphTable,
    set: &mut GraphTable,
    value: i64,
    now: u64,
)
    requires
        now < u64::MAX,
        call_ensures(MetricReporter::<Sum>::add, (sum, added, value, now), ()),
        call_ensures(MetricReporter::<Sum>::sub, (sum, taken, value, now), ()),
        call_ensures(MetricReporter::<Max>::record, (max, recorded, value, now), ()),
        call_ensures(MetricReporter::<Gauge>::set, (gauge, set, value, now), ()),
        sum.target() is None || !graph_views(*old(added)).contains_key(
            (sum.target()->0).0.graph,
        ) && !graph_views(*old(taken)).contains_key((sum.target()->0).0.graph),
        max.target() is None || !graph_views(*old(recorded)).contains_key(
            (max.target()->0).0.graph,
        ),
        gauge.target() is None || !graph_views(*old(set)).contains_key(
            (gauge.target()->0).0.graph,
        ),
    ensures
        graph_views(*final(added)) == graph_views(*old(added)),
        graph_views(*final(taken)) == graph_views(*old(taken)),
        graph_views(*final(recorded)) == graph_views(*old(recorded)),
        graph_views(*final(set)) == graph_views(*old(set)),
{
}

} // verus!
