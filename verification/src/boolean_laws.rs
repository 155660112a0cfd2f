//! What the boolean functions answer, value by value.

use crate::bloom_filter::is_in_set;
use crate::boolean::{all, all_horizontal, any, any_horizontal, has_nulls, is_empty, is_in_bloom_filter, is_not_null, is_null, BooleanError, Column, ColumnValues, ColumnsUdf, Evaluation, IRBooleanFunction, Kernel, KernelAnswer};
use vstd::prelude::*;

#[allow(unused_imports)]
use crate::boolean::{all_kleene, and, any_kleene, any_null, combine, combine_rows, combines, evaluates, full_null, has_value, horizontal, lengths_agree, or};

verus! {

/// Any of the values: true where one of them is, false where none of them is
/// true, and open only where that is not settled: nothing is true, something is
/// null, and nulls are not ignored.
pub proof fn law_any_is_settled_by_a_true_value(
    s: &Column,
    v: Seq<Option<bool>>,
    ignore_nulls: bool,
    outcome: Result<Column, BooleanError>,
)
    requires
        call_ensures(any, (s, ignore_nulls), outcome),
        s.values is Boolean,
        v == s.values->Boolean_0@,
    ensures
        outcome is Ok,
        outcome->Ok_0.name@ == s.name@,
        outcome->Ok_0.values is Boolean,
        ({
            let answer = outcome->Ok_0.values->Boolean_0@;
            &&& answer.len() == 1
            &&& answer[0] == Some(true) <==> exists|i: int|
                0 <= i < v.len() && #[trigger] v[i] == Some(true)
            &&& answer[0] == Some(false) <==> forall|i: int|
                0 <= i < v.len() ==> (#[trigger] v[i] == Some(false) || ignore_nulls && v[i]
                    == None::<bool>)
        }),
{
    let answer = outcome->Ok_0.values->Boolean_0@;
    assert(answer[0] == (if ignore_nulls {
        Some(has_value(v, Some(true)))
    } else {
        any_kleene(v)
    }));
    lemma_three_values(v);
    if forall|i: int|
        0 <= i < v.len() ==> (#[trigger] v[i] == Some(false) || ignore_nulls && v[i] == None::<
            bool,
        >) {
        assert(!has_value(v, Some(true)));
        assert(!ignore_nulls ==> !has_value(v, None));
    } else {
        let i = choose|i: int|
            0 <= i < v.len() && !(#[trigger] v[i] == Some(false) || ignore_nulls && v[i]
                == None::<bool>);
        assert(has_value(v, Some(true)) || has_value(v, None));
    }
}

proof fn lemma_three_values(v: Seq<Option<bool>>)
    ensures
        forall|i: int|
            0 <= i < v.len() ==> #[trigger] v[i] == Some(true) || v[i] == Some(false) || v[i]
                == None::<bool>,
{
    assert forall|i: int| 0 <= i < v.len() implies #[trigger] v[i] == Some(true) || v[i] == Some(
        false,
    ) || v[i] == None::<bool> by {
        match v[i] {
            Some(b) => {},
            None => {},
        }
    }
}

/// All of the values: false where one of them is, true where none of them is
/// false, and open only where that is not settled: nothing is false, something
/// is null, and nulls are not ignored.
pub proof fn law_all_is_settled_by_a_false_value(
    s: &Column,
    v: Seq<Option<bool>>,
    ignore_nulls: bool,
    outcome: Result<Column, BooleanError>,
)
    requires
        call_ensures(all, (s, ignore_nulls), outcome),
        s.values is Boolean,
        v == s.values->Boolean_0@,
    ensures
        outcome is Ok,
        outcome->Ok_0.name@ == s.name@,
        outcome->Ok_0.values is Boolean,
        ({
            let answer = outcome->Ok_0.values->Boolean_0@;
            &&& answer.len() == 1
            &&& answer[0] == Some(false) <==> exists|i: int|
                0 <= i < v.len() && #[trigger] v[i] == Some(false)
            &&& answer[0] == Some(true) <==> forall|i: int|
                0 <= i < v.len() ==> (#[trigger] v[i] == Some(true) || ignore_nulls && v[i]
                    == None::<bool>)
        }),
{
    let answer = outcome->Ok_0.values->Boolean_0@;
    assert(answer[0] == (if ignore_nulls {
        Some(!has_value(v, Some(false)))
    } else {
        all_kleene(v)
    }));
    lemma_three_values(v);
    if forall|i: int|
        0 <= i < v.len() ==> (#[trigger] v[i] == Some(true) || ignore_nulls && v[i] == None::<
            bool,
        >) {
        assert(!has_value(v, Some(false)));
        assert(!ignore_nulls ==> !has_value(v, None));
    } else {
        let i = choose|i: int|
            0 <= i < v.len() && !(#[trigger] v[i] == Some(true) || ignore_nulls && v[i] == None::<
                bool,
            >);
        assert(has_value(v, Some(false)) || has_value(v, None));
    }
}

/// Only booleans are asked whether any or all of them are true.
pub proof fn law_any_and_all_take_booleans(
    s: &Column,
    ignore_nulls: bool,
    any_outcome: Result<Column, BooleanError>,
    all_outcome: Result<Column, BooleanError>,
)
    requires
        call_ensures(any, (s, ignore_nulls), any_outcome),
        call_ensures(all, (s, ignore_nulls), all_outcome),
        !(s.values is Boolean),
    ensures
        any_outcome == Err::<Column, _>(BooleanError::ExpectedBoolean),
        all_outcome == Err::<Column, _>(BooleanError::ExpectedBoolean),
{
}

/// `missing` says of each value of a column whether it is null.
pub open spec fn tells_nulls(values: ColumnValues, missing: Seq<bool>) -> bool {
    match values {
        ColumnValues::Boolean(v) => missing.len() == v@.len() && forall|i: int|
            0 <= i < missing.len() ==> #[trigger] missing[i] == (v@[i] == None::<bool>),
        ColumnValues::UInt64(v) => missing.len() == v@.len() && forall|i: int|
            0 <= i < missing.len() ==> #[trigger] missing[i] == (v@[i] == None::<u64>),
        ColumnValues::Str(v) => missing.len() == v@.len() && forall|i: int|
            0 <= i < missing.len() ==> #[trigger] missing[i] == (v@[i] == None::<String>),
        ColumnValues::Number(v) => missing.len() == v@.len() && forall|i: int|
            0 <= i < missing.len() ==> #[trigger] missing[i] == (v@[i] == None::<bool>),
        ColumnValues::Other(v) => missing == v@,
    }
}

proof fn lemma_nulls(values: ColumnValues, missing: Seq<bool>)
    requires
        tells_nulls(values, missing),
    ensures
        values.len() == missing.len(),
        forall|i: int| 0 <= i < missing.len() ==> #[trigger] values.null_at(i) == missing[i],
{
    assert forall|i: int| 0 <= i < missing.len() implies #[trigger] values.null_at(i)
        == missing[i] by {
        assert(missing[i] == missing[i]);
    }
}

/// A column is empty where it has no values, or none but nulls where nulls are
/// ignored.
pub proof fn law_empty_is_without_values(
    s: &Column,
    missing: Seq<bool>,
    ignore_nulls: bool,
    outcome: Result<Column, BooleanError>,
)
    requires
        call_ensures(is_empty, (s, ignore_nulls), outcome),
        tells_nulls(s.values, missing),
    ensures
        outcome is Ok,
        outcome->Ok_0.name@ == s.name@,
        outcome->Ok_0.values is Boolean,
        ({
            let answer = outcome->Ok_0.values->Boolean_0@;
            &&& answer.len() == 1
            &&& answer[0] is Some
            &&& answer[0] == Some(true) <==> if ignore_nulls {
                !missing.contains(false)
            } else {
                missing.len() == 0
            }
        }),
{
    lemma_nulls(s.values, missing);
    if full_null(s.values) {
        assert forall|i: int| 0 <= i < missing.len() implies missing[i] by {
            assert(s.values.null_at(i));
        }
    } else {
        let i = choose|i: int| 0 <= i < s.values.len() && !#[trigger] s.values.null_at(i);
        assert(missing[i] == false);
    }
}

/// A column has nulls where one of its values is null.
pub proof fn law_has_nulls_where_one_is(
    s: &Column,
    missing: Seq<bool>,
    outcome: Result<Column, BooleanError>,
)
    requires
        call_ensures(has_nulls, (s,), outcome),
        tells_nulls(s.values, missing),
    ensures
        outcome is Ok,
        outcome->Ok_0.name@ == s.name@,
        outcome->Ok_0.values is Boolean,
        outcome->Ok_0.values->Boolean_0@ == seq![Some(missing.contains(true))],
{
    lemma_nulls(s.values, missing);
    if any_null(s.values) {
        let i = choose|i: int| 0 <= i < s.values.len() && #[trigger] s.values.null_at(i);
        assert(missing[i]);
    }
    if missing.contains(true) {
        let i = missing.index_of(true);
        assert(s.values.null_at(i));
    }
}

/// Which values are null is told value by value, and which are not is the
/// opposite: neither answer is ever open.
pub proof fn law_nulls_are_told_value_by_value(
    s: &Column,
    missing: Seq<bool>,
    null: Result<Column, BooleanError>,
    not_null: Result<Column, BooleanError>,
)
    requires
        call_ensures(is_null, (s,), null),
        call_ensures(is_not_null, (s,), not_null),
        tells_nulls(s.values, missing),
    ensures
        null is Ok && not_null is Ok,
        null->Ok_0.name@ == s.name@ && not_null->Ok_0.name@ == s.name@,
        null->Ok_0.values is Boolean && not_null->Ok_0.values is Boolean,
        null->Ok_0.values->Boolean_0@.len() == missing.len(),
        not_null->Ok_0.values->Boolean_0@.len() == missing.len(),
        forall|i: int|
            0 <= i < missing.len() ==> null->Ok_0.values->Boolean_0@[i] == Some(
                #[trigger] missing[i],
            ) && not_null->Ok_0.values->Boolean_0@[i] == Some(!missing[i]),
{
    lemma_nulls(s.values, missing);
}

/// `truth` is what the values of a column are as booleans: a boolean is itself,
/// a number is false where it is zero and true where it is anything else, and
/// what is null stays null. Other values are no booleans.
pub open spec fn reads_as(values: ColumnValues, truth: Seq<Option<bool>>) -> bool {
    match values {
        ColumnValues::Boolean(v) => truth == v@,
        ColumnValues::Number(v) => truth == v@,
        ColumnValues::UInt64(v) => truth.len() == v@.len() && forall|i: int|
            0 <= i < truth.len() ==> {
                &&& #[trigger] truth[i] == Some(false) <==> v@[i] == Some(0u64)
                &&& truth[i] == None::<bool> <==> v@[i] == None::<u64>
            },
        _ => false,
    }
}

proof fn lemma_reads_as(values: ColumnValues, truth: Seq<Option<bool>>)
    requires
        reads_as(values, truth),
    ensures
        values.booleans() == Some(truth),
        values.len() == truth.len(),
{
    if let ColumnValues::UInt64(v) = values {
        assert forall|i: int| 0 <= i < truth.len() implies truth[i] == values.booleans()->0[i] by {
            assert(truth[i] == Some(false) <==> v@[i] == Some(0u64));
        }
    }
    assert(values.booleans()->0 =~= truth);
}

/// The value of a column in row `i`, where a single value stands for all rows.
pub open spec fn in_row(truth: Seq<Option<bool>>, i: int) -> Option<bool> {
    truth[if truth.len() == 1 {
        0
    } else {
        i
    }]
}

/// What combining the columns row by row comes to: `decisive` where any column
/// has it, the opposite where all have that, and null otherwise.
spec fn rows_of(decisive: bool, truths: Seq<Seq<Option<bool>>>, rows: Seq<Option<bool>>) -> bool {
    &&& forall|c: int|
        0 <= c < truths.len() ==> (#[trigger] truths[c]).len() == 1 || truths[c].len()
            == rows.len()
    &&& rows.len() == 1 || exists|c: int|
        0 <= c < truths.len() && (#[trigger] truths[c]).len() == rows.len()
    &&& forall|i: int|
        0 <= i < rows.len() ==> {
            &&& #[trigger] rows[i] == Some(decisive) <==> exists|c: int|
                0 <= c < truths.len() && in_row(#[trigger] truths[c], i) == Some(decisive)
            &&& rows[i] == Some(!decisive) <==> forall|c: int|
                0 <= c < truths.len() ==> in_row(#[trigger] truths[c], i) == Some(!decisive)
        }
}

proof fn lemma_combine_decides(decisive: bool, a: Option<bool>, b: Option<bool>)
    ensures
        combine(decisive, a, b) == Some(decisive) <==> a == Some(decisive) || b == Some(decisive),
        combine(decisive, a, b) == Some(!decisive) <==> a == Some(!decisive) && b == Some(
            !decisive,
        ),
{
    match a {
        Some(x) => {},
        None => {},
    }
    match b {
        Some(y) => {},
        None => {},
    }
}

proof fn lemma_horizontal(
    decisive: bool,
    columns: Seq<Column>,
    truths: Seq<Seq<Option<bool>>>,
    n: nat,
)
    requires
        truths.len() == columns.len(),
        forall|c: int|
            0 <= c < columns.len() ==> reads_as((#[trigger] columns[c]).values, truths[c]),
        lengths_agree(columns, n),
    ensures
        rows_of(decisive, truths, horizontal(decisive, columns)),
        horizontal(decisive, columns).len() == n || horizontal(decisive, columns).len() == 1,
    decreases columns.len(),
{
    let rows = horizontal(decisive, columns);
    if columns.len() == 0 {
        assert(rows.len() == 1);
        assert(rows[0] == Some(!decisive));
    } else {
        let last = columns.len() - 1;
        let rest = columns.drop_last();
        let earlier = truths.drop_last();
        assert forall|c: int| 0 <= c < rest.len() implies reads_as(
            (#[trigger] rest[c]).values,
            earlier[c],
        ) && (rest[c].values.len() == n || rest[c].values.len() == 1) by {
            assert(columns[c] == rest[c]);
        }
        lemma_horizontal(decisive, rest, earlier, n);
        let acc = horizontal(decisive, rest);
        let truth = truths[last];
        assert(reads_as(columns[last].values, truth));
        lemma_reads_as(columns[last].values, truth);
        assert(columns.last() == columns[last]);
        assert(rows == combine_rows(decisive, acc, truth));
        assert forall|c: int| 0 <= c < truths.len() implies (#[trigger] truths[c]).len() == 1
            || truths[c].len() == rows.len() by {
            if c < last {
                assert(earlier[c] == truths[c]);
            }
            assert(columns[c].values.len() == n || columns[c].values.len() == 1);
            lemma_reads_as(columns[c].values, truths[c]);
        }
        if rows.len() != 1 {
            if truth.len() == rows.len() {
                assert(truths[last].len() == rows.len());
            } else {
                let c = choose|c: int|
                    0 <= c < earlier.len() && (#[trigger] earlier[c]).len() == acc.len();
                assert(truths[c] == earlier[c]);
            }
        }
        assert forall|i: int| 0 <= i < rows.len() implies {
            &&& #[trigger] rows[i] == Some(decisive) <==> exists|c: int|
                0 <= c < truths.len() && in_row(#[trigger] truths[c], i) == Some(decisive)
            &&& rows[i] == Some(!decisive) <==> forall|c: int|
                0 <= c < truths.len() ==> in_row(#[trigger] truths[c], i) == Some(!decisive)
        } by {
            let k: int = if acc.len() == 1 {
                0
            } else {
                i
            };
            assert(rows[i] == combine(decisive, acc[k], in_row(truth, i)));
            assert(0 <= k < acc.len());
            assert(acc[k] == Some(decisive) <==> exists|c: int|
                0 <= c < earlier.len() && in_row(#[trigger] earlier[c], k) == Some(decisive));
            assert(acc[k] == Some(!decisive) <==> forall|c: int|
                0 <= c < earlier.len() ==> in_row(#[trigger] earlier[c], k) == Some(!decisive));
            lemma_combine_decides(decisive, acc[k], in_row(truth, i));
            if acc.len() == 1 {
                // Where the columns so far have a single value each, it stands
                // for row `i` too.
                assert forall|c: int| 0 <= c < earlier.len() implies in_row(
                    #[trigger] earlier[c],
                    i,
                ) == in_row(earlier[c], 0) by {
                    assert(earlier[c].len() == 1);
                }
            }
            if acc[k] == Some(decisive) {
                let c = choose|c: int|
                    0 <= c < earlier.len() && in_row(#[trigger] earlier[c], k) == Some(decisive);
                assert(truths[c] == earlier[c]);
                assert(in_row(truths[c], i) == Some(decisive));
            }
            if in_row(truth, i) == Some(decisive) {
                assert(in_row(truths[last], i) == Some(decisive));
            }
            if exists|c: int|
                0 <= c < truths.len() && in_row(#[trigger] truths[c], i) == Some(decisive) {
                let c = choose|c: int|
                    0 <= c < truths.len() && in_row(#[trigger] truths[c], i) == Some(decisive);
                if c < last {
                    assert(in_row(earlier[c], k) == Some(decisive));
                }
            }
            if acc[k] == Some(!decisive) && in_row(truth, i) == Some(!decisive) {
                assert forall|c: int| 0 <= c < truths.len() implies in_row(
                    #[trigger] truths[c],
                    i,
                ) == Some(!decisive) by {
                    if c < last {
                        assert(in_row(earlier[c], k) == Some(!decisive));
                    }
                }
            }
            if forall|c: int|
                0 <= c < truths.len() ==> in_row(#[trigger] truths[c], i) == Some(!decisive) {
                assert(in_row(truths[last], i) == Some(!decisive));
                assert forall|c: int| 0 <= c < earlier.len() implies in_row(
                    #[trigger] earlier[c],
                    k,
                ) == Some(!decisive) by {
                    assert(in_row(truths[c], i) == Some(!decisive));
                }
                assert(acc[k] == Some(!decisive));
            }
        }
    }
}

/// Any of the columns, row by row: true where a column is true there, false
/// where all of them are false there, and null otherwise. There are as many rows
/// as in the columns, a single value standing for every row.
pub proof fn law_any_horizontal_goes_row_by_row(
    s: &[Column],
    truths: Seq<Seq<Option<bool>>>,
    outcome: Result<Column, BooleanError>,
)
    requires
        call_ensures(any_horizontal, (s,), outcome),
        exists|n: nat| lengths_agree(s@, n),
        s@.len() > 0,
        truths.len() == s@.len(),
        forall|c: int| 0 <= c < s@.len() ==> reads_as((#[trigger] s@[c]).values, truths[c]),
    ensures
        outcome is Ok,
        outcome->Ok_0.name@ == s@[0].name@,
        outcome->Ok_0.values is Boolean,
        ({
            let rows = outcome->Ok_0.values->Boolean_0@;
            &&& forall|c: int|
                0 <= c < truths.len() ==> (#[trigger] truths[c]).len() == 1 || truths[c].len()
                    == rows.len()
            &&& rows.len() == 1 || exists|c: int|
                0 <= c < truths.len() && (#[trigger] truths[c]).len() == rows.len()
            &&& forall|i: int|
                0 <= i < rows.len() ==> {
                    &&& #[trigger] rows[i] == Some(true) <==> exists|c: int|
                        0 <= c < truths.len() && in_row(#[trigger] truths[c], i) == Some(true)
                    &&& rows[i] == Some(false) <==> forall|c: int|
                        0 <= c < truths.len() ==> in_row(#[trigger] truths[c], i) == Some(false)
                }
        }),
{
    let n = choose|n: nat| lengths_agree(s@, n);
    lemma_horizontal(true, s@, truths, n);
    assert forall|c: int| 0 <= c < s@.len() implies (#[trigger] s@[c]).values.booleans() is Some by {
        lemma_reads_as(s@[c].values, truths[c]);
    }
}

/// All of the columns, row by row: false where a column is false there, true
/// where all of them are true there, and null otherwise. There are as many rows
/// as in the columns, a single value standing for every row.
pub proof fn law_all_horizontal_goes_row_by_row(
    s: &[Column],
    truths: Seq<Seq<Option<bool>>>,
    outcome: Result<Column, BooleanError>,
)
    requires
        call_ensures(all_horizontal, (s,), outcome),
        exists|n: nat| lengths_agree(s@, n),
        s@.len() > 0,
        truths.len() == s@.len(),
        forall|c: int| 0 <= c < s@.len() ==> reads_as((#[trigger] s@[c]).values, truths[c]),
    ensures
        outcome is Ok,
        outcome->Ok_0.name@ == s@[0].name@,
        outcome->Ok_0.values is Boolean,
        ({
            let rows = outcome->Ok_0.values->Boolean_0@;
            &&& forall|c: int|
                0 <= c < truths.len() ==> (#[trigger] truths[c]).len() == 1 || truths[c].len()
                    == rows.len()
            &&& rows.len() == 1 || exists|c: int|
                0 <= c < truths.len() && (#[trigger] truths[c]).len() == rows.len()
            &&& forall|i: int|
                0 <= i < rows.len() ==> {
                    &&& #[trigger] rows[i] == Some(false) <==> exists|c: int|
                        0 <= c < truths.len() && in_row(#[trigger] truths[c], i) == Some(false)
                    &&& rows[i] == Some(true) <==> forall|c: int|
                        0 <= c < truths.len() ==> in_row(#[trigger] truths[c], i) == Some(true)
                }
        }),
{
    let n = choose|n: nat| lengths_agree(s@, n);
    lemma_horizontal(false, s@, truths, n);
    assert forall|c: int| 0 <= c < s@.len() implies (#[trigger] s@[c]).values.booleans() is Some by {
        lemma_reads_as(s@[c].values, truths[c]);
    }
}

/// A number counts as true unless it is zero: over one column of numbers, any
/// and all of them say the same, row by row.
pub proof fn law_number_is_true_unless_zero(
    s: &[Column],
    v: Seq<Option<u64>>,
    any_outcome: Result<Column, BooleanError>,
    all_outcome: Result<Column, BooleanError>,
    i: int,
)
    requires
        call_ensures(any_horizontal, (s,), any_outcome),
        call_ensures(all_horizontal, (s,), all_outcome),
        s@.len() == 1,
        s@[0].values is UInt64,
        v == s@[0].values->UInt64_0@,
        0 <= i < v.len(),
    ensures
        any_outcome is Ok && all_outcome is Ok,
        any_outcome->Ok_0.values is Boolean && all_outcome->Ok_0.values is Boolean,
        any_outcome->Ok_0.values->Boolean_0@ == all_outcome->Ok_0.values->Boolean_0@,
        any_outcome->Ok_0.values->Boolean_0@.len() == v.len(),
        ({
            let row = any_outcome->Ok_0.values->Boolean_0@[i];
            &&& row == Some(false) <==> v[i] == Some(0u64)
            &&& row == Some(true) <==> v[i] is Some && v[i] != Some(0u64)
            &&& row == None::<bool> <==> v[i] == None::<u64>
        }),
{
    let truth = Seq::new(
        v.len(),
        |k: int|
            match v[k] {
                Some(x) => if x == 0 {
                    Some(false)
                } else {
                    Some(true)
                },
                None => None,
            },
    );
    let truths = seq![truth];
    assert(lengths_agree(s@, v.len()));
    assert(reads_as(s@[0].values, truth));
    law_any_horizontal_goes_row_by_row(s, truths, any_outcome);
    law_all_horizontal_goes_row_by_row(s, truths, all_outcome);
    let any_rows = any_outcome->Ok_0.values->Boolean_0@;
    let all_rows = all_outcome->Ok_0.values->Boolean_0@;
    assert(truths[0] == truth);
    assert(any_rows.len() == v.len() && all_rows.len() == v.len());
    assert forall|k: int| 0 <= k < v.len() implies any_rows[k] == truth[k] && all_rows[k]
        == truth[k] by {
        assert(in_row(truths[0], k) == truth[k]);
        assert(any_rows[k] == Some(true) <==> truth[k] == Some(true));
        assert(any_rows[k] == Some(false) <==> truth[k] == Some(false));
        assert(all_rows[k] == Some(true) <==> truth[k] == Some(true));
        assert(all_rows[k] == Some(false) <==> truth[k] == Some(false));
    }
    assert(any_rows =~= all_rows);
    assert(any_rows[i] == truth[i]);
}

/// Columns of strings, or of other values that are no booleans, are refused.
pub proof fn law_horizontal_refuses_what_is_no_boolean(
    s: &[Column],
    c: int,
    any_outcome: Result<Column, BooleanError>,
    all_outcome: Result<Column, BooleanError>,
)
    requires
        call_ensures(any_horizontal, (s,), any_outcome),
        call_ensures(all_horizontal, (s,), all_outcome),
        0 <= c < s@.len(),
        s@[c].values is Str || s@[c].values is Other,
    ensures
        any_outcome == Err::<Column, _>(BooleanError::InvalidCast),
        all_outcome == Err::<Column, _>(BooleanError::InvalidCast),
{
    assert(s@[c].values.booleans() is None);
}

/// Probing a filter with a column says of each value what probing it with that
/// value says, and of a null that it is not there.
pub proof fn law_column_is_probed_value_by_value(
    c: &Column,
    bitset: &[u8],
    v: Seq<Option<u64>>,
    outcome: Result<Column, BooleanError>,
    i: int,
    found: bool,
)
    requires
        call_ensures(is_in_bloom_filter, (c, bitset), outcome),
        bitset@.len() > 0,
        bitset@.len() % 32 == 0,
        c.values is UInt64,
        v == c.values->UInt64_0@,
        0 <= i < v.len(),
        v[i] is Some ==> call_ensures(is_in_set, (bitset, v[i]->0), found),
    ensures
        outcome is Ok,
        outcome->Ok_0.name@ == c.name@,
        outcome->Ok_0.values is Boolean,
        outcome->Ok_0.values->Boolean_0@.len() == v.len(),
        outcome->Ok_0.values->Boolean_0@[i] == (if v[i] is Some {
            Some(found)
        } else {
            Some(false)
        }),
{
}

/// A bitset that is not a non-zero number of whole blocks is refused, and so are
/// columns that do not hold unsigned 64-bit integers.
pub proof fn law_probe_refuses_what_it_cannot_read(
    c: &Column,
    bitset: &[u8],
    outcome: Result<Column, BooleanError>,
)
    requires
        call_ensures(is_in_bloom_filter, (c, bitset), outcome),
    ensures
        bitset@.len() == 0 || bitset@.len() % 32 != 0 ==> outcome == Err::<Column, _>(
            BooleanError::MalformedBitset { len: bitset@.len() as usize },
        ),
        bitset@.len() > 0 && bitset@.len() % 32 == 0 && !(c.values is UInt64) ==> outcome == Err::<
            Column,
            _,
        >(BooleanError::ExpectedUInt64),
        bitset@.len() > 0 && bitset@.len() % 32 == 0 && c.values is UInt64 ==> outcome is Ok,
{
}

/// Two outcomes say the same: the same error, or the same booleans under the
/// same name.
pub open spec fn say_the_same(
    a: Result<Column, BooleanError>,
    b: Result<Column, BooleanError>,
) -> bool {
    match (a, b) {
        (Ok(x), Ok(y)) => {
            &&& x.name@ == y.name@
            &&& x.values is Boolean && y.values is Boolean
            &&& x.values->Boolean_0@ == y.values->Boolean_0@
        },
        (Err(x), Err(y)) => x == y,
        _ => false,
    }
}

/// A function over columns evaluates the function that it was made of, on its
/// first column.
pub proof fn law_udf_evaluates_its_function(
    udf: &ColumnsUdf,
    s: &[Column],
    evaluation: Evaluation,
    outcome: Result<Column, BooleanError>,
)
    requires
        call_ensures(ColumnsUdf::call, (udf, s), evaluation),
        s@.len() > 0,
        match udf.function() {
            IRBooleanFunction::Any { ignore_nulls } => call_ensures(
                any,
                (&s@[0], ignore_nulls),
                outcome,
            ),
            IRBooleanFunction::All { ignore_nulls } => call_ensures(
                all,
                (&s@[0], ignore_nulls),
                outcome,
            ),
            IRBooleanFunction::IsEmpty { ignore_nulls } => call_ensures(
                is_empty,
                (&s@[0], ignore_nulls),
                outcome,
            ),
            IRBooleanFunction::HasNulls => call_ensures(has_nulls, (&s@[0],), outcome),
            IRBooleanFunction::IsNull => call_ensures(is_null, (&s@[0],), outcome),
            IRBooleanFunction::IsNotNull => call_ensures(is_not_null, (&s@[0],), outcome),
            _ => false,
        },
    ensures
        evaluation is Done,
        say_the_same(evaluation->Done_0, outcome),
{
}

/// A function over columns that combines them combines all of them.
pub proof fn law_udf_combines_its_columns(
    udf: &ColumnsUdf,
    s: &[Column],
    evaluation: Evaluation,
    outcome: Result<Column, BooleanError>,
)
    requires
        call_ensures(ColumnsUdf::call, (udf, s), evaluation),
        s@.len() > 0,
        exists|n: nat| lengths_agree(s@, n),
        match udf.function() {
            IRBooleanFunction::AnyHorizontal => call_ensures(any_horizontal, (s,), outcome),
            IRBooleanFunction::AllHorizontal => call_ensures(all_horizontal, (s,), outcome),
            _ => false,
        },
    ensures
        evaluation is Done,
        say_the_same(evaluation->Done_0, outcome),
{
    if forall|i: int| 0 <= i < s@.len() ==> (#[trigger] s@[i]).values.booleans() is Some {
    } else {
        let i = choose|i: int| 0 <= i < s@.len() && (#[trigger] s@[i]).values.booleans() is None;
        assert(s@[i].values.booleans() is None);
    }
}

/// A function over columns that probes a filter probes its own.
pub proof fn law_udf_probes_its_filter(
    udf: &ColumnsUdf,
    s: &[Column],
    bitset: &[u8],
    evaluation: Evaluation,
    outcome: Result<Column, BooleanError>,
)
    requires
        call_ensures(ColumnsUdf::call, (udf, s), evaluation),
        s@.len() > 0,
        udf.function() is IsInBloomFilter,
        udf.function()->bitset@ == bitset@,
        call_ensures(is_in_bloom_filter, (&s@[0], bitset), outcome),
    ensures
        evaluation is Done,
        say_the_same(evaluation->Done_0, outcome),
{
}

/// What only a kernel can evaluate is handed to the kernel of that function,
/// with the function's own options.
pub proof fn law_udf_runs_the_kernel_of_its_function(
    udf: &ColumnsUdf,
    s: &[Column],
    evaluation: Evaluation,
)
    requires
        call_ensures(ColumnsUdf::call, (udf, s), evaluation),
    ensures
        match udf.function() {
            IRBooleanFunction::IsFinite => evaluation == Evaluation::Run(Kernel::IsFinite),
            IRBooleanFunction::IsInfinite => evaluation == Evaluation::Run(Kernel::IsInfinite),
            IRBooleanFunction::IsNan => evaluation == Evaluation::Run(Kernel::IsNan),
            IRBooleanFunction::IsNotNan => evaluation == Evaluation::Run(Kernel::IsNotNan),
            IRBooleanFunction::IsFirstDistinct => evaluation == Evaluation::Run(
                Kernel::IsFirstDistinct,
            ),
            IRBooleanFunction::IsLastDistinct => evaluation == Evaluation::Run(
                Kernel::IsLastDistinct,
            ),
            IRBooleanFunction::IsUnique => evaluation == Evaluation::Run(Kernel::IsUnique),
            IRBooleanFunction::IsDuplicated => evaluation == Evaluation::Run(Kernel::IsDuplicated),
            IRBooleanFunction::IsBetween { closed } => evaluation == Evaluation::Run(
                Kernel::IsBetween { closed },
            ),
            IRBooleanFunction::IsIn { nulls_equal } => evaluation == Evaluation::Run(
                Kernel::IsIn { nulls_equal },
            ),
            IRBooleanFunction::IsClose { abs_tol, rel_tol, nans_equal } => evaluation
                == Evaluation::Run(Kernel::IsClose { abs_tol, rel_tol, nans_equal }),
            IRBooleanFunction::IsSorted { descending, nulls_last } => evaluation
                == Evaluation::Run(Kernel::IsSorted { descending, nulls_last }),
            IRBooleanFunction::Not => evaluation == Evaluation::Run(Kernel::Negate),
            _ => evaluation is Done,
        },
{
}

/// A function applies where there are the columns that it reads: the three of an
/// interval, the two that are compared, or one. Columns that are combined must
/// be of one length, single values aside.
pub proof fn law_udf_applies_to_the_columns_it_reads(udf: &ColumnsUdf, s: &[Column], applies: bool)
    requires
        call_ensures(ColumnsUdf::applies_to, (udf, s), applies),
    ensures
        match udf.function() {
            IRBooleanFunction::IsBetween { .. } => applies == (s@.len() >= 3),
            IRBooleanFunction::IsIn { .. } => applies == (s@.len() >= 2),
            IRBooleanFunction::IsClose { .. } => applies == (s@.len() >= 2),
            IRBooleanFunction::IsInBloomFilter { .. } => applies ==> s@.len() >= 1,
            IRBooleanFunction::AnyHorizontal => applies == (s@.len() >= 1 && agree_in_length(s@)),
            IRBooleanFunction::AllHorizontal => applies == (s@.len() >= 1 && agree_in_length(s@)),
            _ => applies == (s@.len() >= 1),
        },
{
    lemma_agree_in_length(s@);
}

/// No two columns are of different lengths, unless one of them is a single value.
pub open spec fn agree_in_length(s: Seq<Column>) -> bool {
    forall|i: int, j: int|
        0 <= i < s.len() && 0 <= j < s.len() && (#[trigger] s[i]).values.len() != (
        #[trigger] s[j]).values.len() ==> s[i].values.len() == 1 || s[j].values.len() == 1
}

proof fn lemma_agree_in_length(s: Seq<Column>)
    ensures
        agree_in_length(s) <==> exists|n: nat| lengths_agree(s, n),
{
    if agree_in_length(s) {
        if exists|k: int| 0 <= k < s.len() && (#[trigger] s[k]).values.len() != 1 {
            let k = choose|k: int| 0 <= k < s.len() && (#[trigger] s[k]).values.len() != 1;
            assert(lengths_agree(s, s[k].values.len()));
        } else {
            assert(lengths_agree(s, 1));
        }
    }
}

/// A kernel reads the three columns of an interval, the two that it compares, or
/// one.
pub proof fn law_kernel_reads_what_it_compares(kernel: &Kernel, n: usize)
    requires
        call_ensures(Kernel::num_inputs, (kernel,), n),
    ensures
        n == 3 <==> *kernel is IsBetween,
        n == 2 <==> *kernel is IsIn || *kernel is IsClose,
        1 <= n <= 3,
{
}

/// A kernel's column is the outcome as it is, and a kernel's single answer
/// becomes a column of that one value under the name of the first column.
pub proof fn law_kernel_answer_is_the_outcome(
    udf: &ColumnsUdf,
    s: &[Column],
    answer: KernelAnswer,
    outcome: Result<Column, BooleanError>,
)
    requires
        call_ensures(ColumnsUdf::finish, (udf, s, answer), outcome),
    ensures
        match answer {
            KernelAnswer::Values(column) => outcome == Ok::<Column, BooleanError>(column),
            KernelAnswer::Flag(flag) => {
                &&& outcome is Ok
                &&& outcome->Ok_0.name@ == s@[0].name@
                &&& outcome->Ok_0.values is Boolean
                &&& outcome->Ok_0.values->Boolean_0@ == seq![Some(flag)]
            },
        },
{
}

} // verus!
