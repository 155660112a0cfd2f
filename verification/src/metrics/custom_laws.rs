//! What holds of a metric's readings, however its tasks come and go.

use crate::metrics::custom::{ended, find_cell, held, larger, lemma_found_id, set_cell_in, AggMode, Cell, Compacted, CustomMetricsView, LiveCell, MetricStateView};
use vstd::prelude::*;

verus! {

/// The number that a 64-bit signed counter shows for `x`.
pub open spec fn wrapped(x: int) -> int {
    let low = x % 0x1_0000_0000_0000_0000;
    if low < 0x8000_0000_0000_0000 {
        low
    } else {
        low - 0x1_0000_0000_0000_0000
    }
}

/// The sum of what the cells hold.
pub open spec fn sum_values(cells: Seq<LiveCell>) -> int
    decreases cells.len(),
{
    if cells.len() == 0 {
        0
    } else {
        sum_values(cells.drop_last()) + cells.last().cell.value
    }
}

/// Cells written at the same instant hold the same.
pub open spec fn stamps_tell_apart(cells: Seq<LiveCell>) -> bool {
    forall|i: int, j: int|
        0 <= i < cells.len() && 0 <= j < cells.len() && (#[trigger] cells[i]).cell.timestamp == (
        #[trigger] cells[j]).cell.timestamp ==> cells[i].cell == cells[j].cell
}

proof fn lemma_wrapping_add(a: i64, b: i64)
    ensures
        a.wrapping_add(b) == wrapped(a + b),
{
}

pub(crate) proof fn lemma_wrapped_twice(a: int, b: int)
    ensures
        wrapped(wrapped(a) + b) == wrapped(a + b),
{
    let m: int = 0x1_0000_0000_0000_0000;
    let low = a % m;
    assert(wrapped(a) == low || wrapped(a) == low - m);
    vstd::arithmetic::div_mod::lemma_add_mod_noop(a, b, m);
    vstd::arithmetic::div_mod::lemma_add_mod_noop(wrapped(a), b, m);
    assert(wrapped(a) % m == a % m) by {
        if wrapped(a) == low - m {
            vstd::arithmetic::div_mod::lemma_mod_add_multiples_vanish(low - m, m);
        }
        vstd::arithmetic::div_mod::lemma_small_mod(low as nat, m as nat);
    }
}

/// Two cells can be folded in either order, unless a gauge was written twice at
/// the same instant.
proof fn lemma_fold_swaps(agg: AggMode, compacted: Compacted, a: Cell, b: Cell)
    requires
        agg == AggMode::Latest ==> (a.timestamp == b.timestamp ==> a == b),
    ensures
        agg.folded(agg.folded(compacted, a), b) == agg.folded(agg.folded(compacted, b), a),
{
    match agg {
        AggMode::Sum => {
            lemma_wrapping_add(compacted.value, a.value);
            lemma_wrapping_add(compacted.value, b.value);
            lemma_wrapping_add(compacted.value.wrapping_add(a.value), b.value);
            lemma_wrapping_add(compacted.value.wrapping_add(b.value), a.value);
            lemma_wrapped_twice(compacted.value + a.value, b.value as int);
            lemma_wrapped_twice(compacted.value + b.value, a.value as int);
        },
        _ => {},
    }
}

proof fn lemma_fold_moves(agg: AggMode, compacted: Compacted, first: Cell, cells: Seq<LiveCell>)
    requires
        agg == AggMode::Latest ==> forall|i: int|
            0 <= i < cells.len() && (#[trigger] cells[i]).cell.timestamp == first.timestamp
                ==> cells[i].cell == first,
    ensures
        agg.fold_all(agg.folded(compacted, first), cells) == agg.folded(
            agg.fold_all(compacted, cells),
            first,
        ),
    decreases cells.len(),
{
    if cells.len() > 0 {
        let rest = cells.drop_last();
        assert forall|i: int|
            agg == AggMode::Latest && 0 <= i < rest.len() && (
            #[trigger] rest[i]).cell.timestamp == first.timestamp implies rest[i].cell == first by {
            assert(cells[i].cell.timestamp == first.timestamp);
        }
        lemma_fold_moves(agg, compacted, first, rest);
        assert(cells[cells.len() - 1] == cells.last());
        lemma_fold_swaps(agg, agg.fold_all(compacted, rest), first, cells.last().cell);
    }
}

pub(crate) proof fn lemma_held_of(cells: Seq<LiveCell>, i: int)
    requires
        0 <= i < held(cells).len(),
    ensures
        exists|k: int| 0 <= k < cells.len() && #[trigger] cells[k] == held(cells)[i],
    decreases cells.len(),
{
    let rest = cells.drop_last();
    if i < held(rest).len() {
        lemma_held_of(rest, i);
        let k = choose|k: int| 0 <= k < rest.len() && #[trigger] rest[k] == held(rest)[i];
        assert(cells[k] == held(cells)[i]);
    } else {
        assert(cells[cells.len() - 1] == held(cells)[i]);
    }
}

/// Compacting a cell moves its value rather than losing it: folding the cells of
/// ended tasks in does not change what the metric adds up to. (Of two gauge
/// writes at the same instant either may count as the later.)
pub proof fn law_compaction_keeps_total(metric: MetricStateView)
    requires
        metric.spec.agg == AggMode::Latest ==> stamps_tell_apart(metric.live),
    ensures
        metric.compact().total() == metric.total(),
    decreases metric.live.len(),
{
    let agg = metric.spec.agg;
    let live = metric.live;
    if live.len() > 0 {
        let rest = live.drop_last();
        let last = live.last();
        let shorter = MetricStateView { live: rest, ..metric };
        assert(agg == AggMode::Latest ==> stamps_tell_apart(rest)) by {
            if agg == AggMode::Latest {
                assert forall|i: int, j: int|
                    0 <= i < rest.len() && 0 <= j < rest.len() && (
                    #[trigger] rest[i]).cell.timestamp == (
                    #[trigger] rest[j]).cell.timestamp implies rest[i].cell == rest[j].cell by {
                    assert(live[i].cell == live[j].cell);
                }
            }
        }
        law_compaction_keeps_total(shorter);
        if last.holders > 0 {
            assert(held(live).drop_last() =~= held(rest));
        } else {
            assert(ended(live).drop_last() =~= ended(rest));
            assert forall|i: int|
                agg == AggMode::Latest && 0 <= i < held(rest).len() && (
                #[trigger] held(rest)[i]).cell.timestamp
                    == last.cell.timestamp implies held(rest)[i].cell == last.cell by {
                lemma_held_of(rest, i);
                let k = choose|k: int| 0 <= k < rest.len() && #[trigger] rest[k] == held(rest)[i];
                assert(live[k].cell == live[live.len() - 1].cell);
            }
            lemma_fold_moves(
                agg,
                agg.fold_all(metric.compacted, ended(rest)),
                last.cell,
                held(rest),
            );
        }
    }
}

/// A snapshot reads what was reported by all tasks, ended or not.
pub proof fn law_snapshot_reads_total(metric: MetricStateView)
    requires
        metric.spec.agg == AggMode::Latest ==> stamps_tell_apart(metric.live),
    ensures
        metric.snapshot().value == metric.total().reading(),
{
    law_compaction_keeps_total(metric);
}

/// Looking does not change what is seen: a second snapshot reads the same.
pub proof fn law_snapshot_is_repeatable(metric: MetricStateView)
    ensures
        metric.compact().snapshot() == metric.snapshot(),
{
    let kept = held(metric.live);
    lemma_held_again(metric.live);
    assert(metric.compact().compact() =~= metric.compact());
}

proof fn lemma_held_again(cells: Seq<LiveCell>)
    ensures
        held(held(cells)) == held(cells),
        ended(held(cells)) == Seq::<LiveCell>::empty(),
    decreases cells.len(),
{
    if cells.len() > 0 {
        lemma_held_again(cells.drop_last());
        if cells.last().holders > 0 {
            assert(held(cells).drop_last() =~= held(cells.drop_last()));
        }
    }
}

/// Metrics are read in the order of their registration, each under its own key.
pub proof fn law_snapshot_keeps_registration_order(metrics: CustomMetricsView, i: int)
    requires
        0 <= i < metrics.metrics.len(),
    ensures
        metrics.snapshot().len() == metrics.metrics.len(),
        metrics.snapshot()[i].key == metrics.metrics[i].spec.key,
        metrics.compact().metrics[i].spec == metrics.metrics[i].spec,
{
}

/// A sum nets out across tasks.
pub proof fn law_sum_is_net(compacted: Compacted, cells: Seq<LiveCell>)
    ensures
        AggMode::Sum.fold_all(compacted, cells).value == wrapped(
            compacted.value + sum_values(cells),
        ),
    decreases cells.len(),
{
    if cells.len() > 0 {
        law_sum_is_net(compacted, cells.drop_last());
        let sofar = AggMode::Sum.fold_all(compacted, cells.drop_last()).value;
        lemma_wrapping_add(sofar, cells.last().cell.value);
        lemma_wrapped_twice(
            compacted.value + sum_values(cells.drop_last()),
            cells.last().cell.value as int,
        );
    }
}

/// A maximum is the highest share, not their sum: no share is higher, and one
/// of them is as high.
pub proof fn law_max_is_highest(compacted: Compacted, cells: Seq<LiveCell>)
    ensures
        ({
            let value = AggMode::Max.fold_all(compacted, cells).value;
            &&& value >= compacted.value
            &&& forall|i: int|
                0 <= i < cells.len() ==> value >= (#[trigger] cells[i]).cell.value
            &&& value == compacted.value || exists|i: int|
                0 <= i < cells.len() && value == (#[trigger] cells[i]).cell.value
        }),
    decreases cells.len(),
{
    if cells.len() > 0 {
        let rest = cells.drop_last();
        law_max_is_highest(compacted, rest);
        let value = AggMode::Max.fold_all(compacted, cells).value;
        let before = AggMode::Max.fold_all(compacted, rest).value;
        assert forall|i: int| 0 <= i < cells.len() implies value >= (
        #[trigger] cells[i]).cell.value by {
            if i < rest.len() {
                assert(before >= rest[i].cell.value);
            }
        }
        if value != compacted.value {
            if value == before {
                let i = choose|i: int|
                    0 <= i < rest.len() && before == (#[trigger] rest[i]).cell.value;
                assert(cells[i].cell.value == value);
            } else {
                assert(cells[cells.len() - 1].cell.value == value);
            }
        }
    }
}

/// A gauge shows what was set last: nothing was written later, and what it shows
/// was written.
pub proof fn law_gauge_is_latest(compacted: Compacted, cells: Seq<LiveCell>)
    ensures
        ({
            let total = AggMode::Latest.fold_all(compacted, cells);
            &&& total.timestamp >= compacted.timestamp
            &&& forall|i: int|
                0 <= i < cells.len() ==> total.timestamp >= (#[trigger] cells[i]).cell.timestamp
            &&& total == compacted || exists|i: int|
                0 <= i < cells.len() && total.value == (#[trigger] cells[i]).cell.value
                    && total.timestamp == cells[i].cell.timestamp
        }),
    decreases cells.len(),
{
    if cells.len() > 0 {
        let rest = cells.drop_last();
        law_gauge_is_latest(compacted, rest);
        let total = AggMode::Latest.fold_all(compacted, cells);
        let before = AggMode::Latest.fold_all(compacted, rest);
        assert forall|i: int| 0 <= i < cells.len() implies total.timestamp >= (
        #[trigger] cells[i]).cell.timestamp by {
            if i < rest.len() {
                assert(before.timestamp >= rest[i].cell.timestamp);
            }
        }
        if total != compacted {
            if total == before {
                let i = choose|i: int|
                    0 <= i < rest.len() && before.value == (#[trigger] rest[i]).cell.value
                        && before.timestamp == rest[i].cell.timestamp;
                assert(cells[i].cell.value == total.value);
            } else {
                assert(cells[cells.len() - 1].cell.value == total.value);
            }
        }
    }
}

/// A metric has a reading if and only if anything was ever reported: absence is
/// told by the stamps, not by the value.
pub proof fn law_reading_means_report(metric: MetricStateView)
    ensures
        metric.total().reading() is Some <==> metric.compacted.timestamp != 0 || exists|i: int|
            0 <= i < metric.live.len() && (#[trigger] metric.live[i]).cell.timestamp != 0,
    decreases metric.live.len(),
{
    let live = metric.live;
    if live.len() > 0 {
        let shorter = MetricStateView { live: live.drop_last(), ..metric };
        law_reading_means_report(shorter);
        if shorter.total().reading() is Some && metric.compacted.timestamp == 0 {
            let i = choose|i: int|
                0 <= i < shorter.live.len() && (#[trigger] shorter.live[i]).cell.timestamp != 0;
            assert(live[i].cell.timestamp != 0);
        }
        if live.last().cell.timestamp != 0 {
            assert(live[live.len() - 1].cell.timestamp != 0);
        }
        if exists|i: int| 0 <= i < live.len() && (#[trigger] live[i]).cell.timestamp != 0 {
            let i = choose|i: int| 0 <= i < live.len() && (#[trigger] live[i]).cell.timestamp != 0;
            if i < live.len() - 1 {
                assert(shorter.live[i].cell.timestamp != 0);
            }
        }
    }
}

proof fn lemma_same_cells(agg: AggMode, compacted: Compacted, a: Seq<LiveCell>, b: Seq<LiveCell>)
    requires
        a.len() == b.len(),
        forall|i: int| 0 <= i < a.len() ==> (#[trigger] a[i]).cell == b[i].cell,
    ensures
        agg.fold_all(compacted, a) == agg.fold_all(compacted, b),
    decreases a.len(),
{
    if a.len() > 0 {
        assert forall|i: int| 0 <= i < a.len() - 1 implies (#[trigger] a.drop_last()[i]).cell
            == b.drop_last()[i].cell by {
            assert(a[i].cell == b[i].cell);
        }
        lemma_same_cells(agg, compacted, a.drop_last(), b.drop_last());
        assert(a[a.len() - 1].cell == b[a.len() - 1].cell);
    }
}

proof fn lemma_find_among(cells: Seq<LiveCell>, id: u64)
    requires
        find_cell(cells, id) is Some,
    ensures
        exists|i: int|
            0 <= i < cells.len() && #[trigger] cells[i] == find_cell(cells, id)->0 && cells[i].id
                == id,
    decreases cells.len(),
{
    if cells.last().id == id {
        assert(cells[cells.len() - 1] == find_cell(cells, id)->0);
    } else {
        lemma_find_among(cells.drop_last(), id);
        let i = choose|i: int|
            0 <= i < cells.drop_last().len() && #[trigger] cells.drop_last()[i] == find_cell(
                cells.drop_last(),
                id,
            )->0 && cells.drop_last()[i].id == id;
        assert(cells[i] == find_cell(cells, id)->0);
    }
}

/// A task that comes or goes reports nothing by it: how many reporters can
/// write to a cell does not change what the metric adds up to.
pub proof fn law_holders_do_not_count(metrics: CustomMetricsView, m: int, id: u64, holders: u64)
    requires
        metrics.wf(),
        0 <= m < metrics.metrics.len(),
        metrics.cell(m, id) is Some,
    ensures
        metrics.cell_set(m, LiveCell { holders, ..metrics.cell(m, id)->0 }).metrics[m].total()
            == metrics.metrics[m].total(),
{
    let live = metrics.metrics[m].live;
    let cell = LiveCell { holders, ..metrics.cell(m, id)->0 };
    lemma_find_among(live, id);
    let i = choose|i: int|
        0 <= i < live.len() && #[trigger] live[i] == find_cell(live, id)->0 && live[i].id == id;
    let after = set_cell_in(live, cell);
    assert forall|j: int| 0 <= j < live.len() implies (#[trigger] after[j]).cell == live[j].cell by {
        if j < i {
            assert(metrics.metrics[m].live[j].id != metrics.metrics[m].live[i].id);
        } else if i < j {
            assert(metrics.metrics[m].live[i].id != metrics.metrics[m].live[j].id);
        }
    }
    lemma_same_cells(metrics.metrics[m].spec.agg, metrics.metrics[m].compacted, after, live);
}

proof fn lemma_sum_of_update(cells: Seq<LiveCell>, i: int, cell: LiveCell)
    requires
        0 <= i < cells.len(),
    ensures
        sum_values(cells.update(i, cell)) == sum_values(cells) - cells[i].cell.value
            + cell.cell.value,
    decreases cells.len(),
{
    let updated = cells.update(i, cell);
    if i == cells.len() - 1 {
        assert(updated.drop_last() =~= cells.drop_last());
    } else {
        lemma_sum_of_update(cells.drop_last(), i, cell);
        assert(updated.drop_last() =~= cells.drop_last().update(i, cell));
    }
}

/// Every report to a sum counts: changing one task's cell by `delta` changes the
/// metric by `delta`.
pub proof fn law_sum_counts_every_report(
    metrics: CustomMetricsView,
    m: int,
    id: u64,
    delta: i64,
    now: u64,
)
    requires
        metrics.wf(),
        0 <= m < metrics.metrics.len(),
        metrics.metrics[m].spec.agg == AggMode::Sum,
        metrics.cell(m, id) is Some,
    ensures
        ({
            let value = metrics.cell(m, id)->0.cell.value.wrapping_add(delta);
            metrics.written(m, id, value, now).metrics[m].total().value == wrapped(
                metrics.metrics[m].total().value + delta,
            )
        }),
{
    let live = metrics.metrics[m].live;
    let old_cell = metrics.cell(m, id)->0;
    let value = old_cell.cell.value.wrapping_add(delta);
    let cell = LiveCell { cell: Cell { value, timestamp: (now + 1) as u64 }, ..old_cell };
    lemma_find_among(live, id);
    let i = choose|i: int|
        0 <= i < live.len() && #[trigger] live[i] == find_cell(live, id)->0 && live[i].id == id;
    assert(set_cell_in(live, cell) =~= live.update(i, cell)) by {
        assert forall|j: int| 0 <= j < live.len() && j != i implies live[j].id != id by {
            if j < i {
                assert(metrics.metrics[m].live[j].id != metrics.metrics[m].live[i].id);
            } else {
                assert(metrics.metrics[m].live[i].id != metrics.metrics[m].live[j].id);
            }
        }
    }
    lemma_sum_of_update(live, i, cell);
    let compacted = metrics.metrics[m].compacted;
    law_sum_is_net(compacted, live);
    law_sum_is_net(compacted, set_cell_in(live, cell));
    lemma_wrapping_add(old_cell.cell.value, delta);
    let base = compacted.value + sum_values(live) - old_cell.cell.value;
    lemma_wrapped_twice(old_cell.cell.value + delta, base);
    lemma_wrapped_twice(compacted.value + sum_values(live), delta as int);
}

/// A reading never goes backwards while tasks only add: as long as the sum is in
/// range, reporting a share that is not negative does not lower it. Tasks that
/// come, go or are compacted do not either.
pub proof fn law_growing_sum_never_goes_backwards(
    metrics: CustomMetricsView,
    m: int,
    id: u64,
    delta: i64,
    now: u64,
)
    requires
        metrics.wf(),
        0 <= m < metrics.metrics.len(),
        metrics.metrics[m].spec.agg == AggMode::Sum,
        metrics.cell(m, id) is Some,
        0 <= delta,
        metrics.metrics[m].total().value + delta <= i64::MAX,
        now < u64::MAX,
    ensures
        ({
            let value = metrics.cell(m, id)->0.cell.value.wrapping_add(delta);
            let after = metrics.written(m, id, value, now).metrics[m];
            &&& after.total().value == metrics.metrics[m].total().value + delta
            &&& after.snapshot().value is Some
            &&& after.snapshot().value->0 >= metrics.metrics[m].total().value
        }),
{
    law_sum_counts_every_report(metrics, m, id, delta, now);
    let live = metrics.metrics[m].live;
    let old_cell = metrics.cell(m, id)->0;
    let value = old_cell.cell.value.wrapping_add(delta);
    let after = metrics.written(m, id, value, now).metrics[m];
    lemma_find_among(live, id);
    let i = choose|i: int|
        0 <= i < live.len() && #[trigger] live[i] == find_cell(live, id)->0 && live[i].id == id;
    assert(after.live[i].cell.timestamp == now + 1);
    law_reading_means_report(after);
    law_snapshot_reads_total(after);
}

/// Every deduction from a sum counts: taking `delta` from one task's cell takes
/// `delta` from the metric.
pub proof fn law_sum_counts_every_deduction(
    metrics: CustomMetricsView,
    m: int,
    id: u64,
    delta: i64,
    now: u64,
)
    requires
        metrics.wf(),
        0 <= m < metrics.metrics.len(),
        metrics.metrics[m].spec.agg == AggMode::Sum,
        metrics.cell(m, id) is Some,
    ensures
        ({
            let value = metrics.cell(m, id)->0.cell.value.wrapping_sub(delta);
            metrics.written(m, id, value, now).metrics[m].total().value == wrapped(
                metrics.metrics[m].total().value - delta,
            )
        }),
{
    let before = metrics.cell(m, id)->0.cell.value;
    let value = before.wrapping_sub(delta);
    let opposite = wrapped(-delta) as i64;
    lemma_wrapping_add(before, opposite);
    lemma_wrapped_twice(-delta, before as int);
    lemma_wrapping_sub(before, delta);
    assert(value == before.wrapping_add(opposite));
    law_sum_counts_every_report(metrics, m, id, opposite, now);
    lemma_wrapped_twice(-delta, metrics.metrics[m].total().value as int);
}

proof fn lemma_wrapping_sub(a: i64, b: i64)
    ensures
        a.wrapping_sub(b) == wrapped(a - b),
{
}

/// The cells where one of them is replaced: only that one changes.
pub(crate) proof fn lemma_set_cell(metrics: CustomMetricsView, m: int, id: u64, cell: LiveCell) -> (i: int)
    requires
        metrics.wf(),
        0 <= m < metrics.metrics.len(),
        metrics.cell(m, id) is Some,
        cell.id == id,
    ensures
        0 <= i < metrics.metrics[m].live.len(),
        metrics.metrics[m].live[i] == metrics.cell(m, id)->0,
        metrics.metrics[m].live[i].id == id,
        set_cell_in(metrics.metrics[m].live, cell) == metrics.metrics[m].live.update(i, cell),
{
    let live = metrics.metrics[m].live;
    lemma_find_among(live, id);
    let i = choose|i: int|
        0 <= i < live.len() && #[trigger] live[i] == find_cell(live, id)->0 && live[i].id == id;
    assert(set_cell_in(live, cell) =~= live.update(i, cell)) by {
        assert forall|j: int| 0 <= j < live.len() && j != i implies live[j].id != id by {
            if j < i {
                assert(metrics.metrics[m].live[j].id != metrics.metrics[m].live[i].id);
            } else {
                assert(metrics.metrics[m].live[i].id != metrics.metrics[m].live[j].id);
            }
        }
    }
    i
}

/// A maximum takes the higher: after a value was recorded, high or low, it is
/// the larger of what it was and that value. So it never goes down.
pub proof fn law_max_takes_the_higher(
    metrics: CustomMetricsView,
    m: int,
    id: u64,
    value: i64,
    now: u64,
)
    requires
        metrics.wf(),
        0 <= m < metrics.metrics.len(),
        metrics.metrics[m].spec.agg == AggMode::Max,
        metrics.cell(m, id) is Some,
    ensures
        ({
            let highest = larger(metrics.cell(m, id)->0.cell.value as int, value as int) as i64;
            metrics.written(m, id, highest, now).metrics[m].total().value == larger(
                metrics.metrics[m].total().value as int,
                value as int,
            )
        }),
{
    let live = metrics.metrics[m].live;
    let compacted = metrics.metrics[m].compacted;
    let old_cell = metrics.cell(m, id)->0;
    let highest = larger(old_cell.cell.value as int, value as int) as i64;
    let cell = LiveCell { cell: Cell { value: highest, timestamp: (now + 1) as u64 }, ..old_cell };
    lemma_found_id(live, id);
    let i = lemma_set_cell(metrics, m, id, cell);
    let after = live.update(i, cell);
    law_max_is_highest(compacted, live);
    law_max_is_highest(compacted, after);
    assert(after[i].cell.value == highest);
    let before_value = AggMode::Max.fold_all(compacted, live).value;
    let after_value = AggMode::Max.fold_all(compacted, after).value;
    if before_value != compacted.value {
        let j = choose|j: int|
            0 <= j < live.len() && before_value == (#[trigger] live[j]).cell.value;
        assert(after[j].cell.value >= live[j].cell.value);
    }
    if after_value != compacted.value {
        let j = choose|j: int|
            0 <= j < after.len() && after_value == (#[trigger] after[j]).cell.value;
        assert(live[j].cell.value <= before_value);
    }
}

/// A gauge shows what was set last: a value set later than anything that was
/// reported before is what is read.
pub proof fn law_gauge_shows_the_last_set(
    metrics: CustomMetricsView,
    m: int,
    id: u64,
    value: i64,
    now: u64,
)
    requires
        metrics.wf(),
        0 <= m < metrics.metrics.len(),
        metrics.metrics[m].spec.agg == AggMode::Latest,
        metrics.cell(m, id) is Some,
        now < u64::MAX,
        metrics.metrics[m].total().timestamp <= now,
    ensures
        metrics.written(m, id, value, now).metrics[m].total() == (Compacted {
            value,
            timestamp: (now + 1) as u64,
        }),
{
    let live = metrics.metrics[m].live;
    let compacted = metrics.metrics[m].compacted;
    let old_cell = metrics.cell(m, id)->0;
    let cell = LiveCell { cell: Cell { value, timestamp: (now + 1) as u64 }, ..old_cell };
    lemma_found_id(live, id);
    let i = lemma_set_cell(metrics, m, id, cell);
    let after = live.update(i, cell);
    law_gauge_is_latest(compacted, live);
    law_gauge_is_latest(compacted, after);
    let total = AggMode::Latest.fold_all(compacted, after);
    assert(after[i].cell.timestamp == now + 1);
    let j = choose|j: int|
        0 <= j < after.len() && total.value == (#[trigger] after[j]).cell.value && total.timestamp
            == after[j].cell.timestamp;
    if j != i {
        assert(live[j].cell.timestamp <= now);
    }
}

} // verus!
