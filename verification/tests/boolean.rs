use polars_engine::bloom_filter::{insert, num_bytes_for, BLOCK_BYTES};
use polars_engine::boolean::{
    all, all_horizontal, any, any_horizontal, function_expr_to_udf, has_nulls, is_empty,
    is_in_bloom_filter, is_not_null, is_null, BooleanError, ClosedInterval, Column, ColumnValues,
    Evaluation, IRBooleanFunction, Kernel, KernelAnswer,
};

fn filter_over(values: &[u64]) -> Vec<u8> {
    let ndv = values.len().max(1);
    let bits = -8.0 * ndv as f64 / (1.0 - 0.01f64.powf(1.0 / 8.0)).ln();
    let bytes = (bits / 8.0).ceil();
    let needed_blocks = Some((bytes / BLOCK_BYTES as f64).ceil() as u64);
    let mut bitset = vec![0u8; num_bytes_for(ndv, needed_blocks, 1 << 16)];
    for v in values {
        insert(&mut bitset, *v);
    }
    bitset
}

fn u64_column(name: &str, values: Vec<Option<u64>>) -> Column {
    Column {
        name: name.to_string(),
        values: ColumnValues::UInt64(values),
    }
}

fn bool_column(name: &str, values: Vec<Option<bool>>) -> Column {
    Column {
        name: name.to_string(),
        values: ColumnValues::Boolean(values),
    }
}

fn str_column(name: &str, values: Vec<Option<&str>>) -> Column {
    Column {
        name: name.to_string(),
        values: ColumnValues::Str(values.into_iter().map(|v| v.map(str::to_string)).collect()),
    }
}

fn booleans(column: &Column) -> Vec<Option<bool>> {
    match &column.values {
        ColumnValues::Boolean(values) => values.clone(),
        _ => panic!("not a boolean column"),
    }
}

fn answer(outcome: Result<Column, BooleanError>) -> Vec<Option<bool>> {
    let column = outcome.unwrap();
    assert_eq!(column.name, "k");
    booleans(&column)
}

#[test]
fn accepts_every_inserted_value() {
    let values: Vec<u64> = (0..1000)
        .map(|i: u64| i.wrapping_mul(0x9e37_79b9))
        .collect();
    let bitset = filter_over(&values);

    let col = u64_column("k", values.iter().map(|v| Some(*v)).collect());
    let out = is_in_bloom_filter(&col, &bitset).unwrap();

    // No false negatives: every inserted value must survive.
    let kept = booleans(&out).iter().filter(|v| **v == Some(true)).count();
    assert_eq!(kept, values.len());
}

#[test]
fn nulls_are_rejected_not_propagated() {
    let bitset = filter_over(&[7]);

    let col = u64_column("k", vec![Some(7u64), None, Some(8u64)]);
    let out = is_in_bloom_filter(&col, &bitset).unwrap();
    let out = booleans(&out);

    // A null key matches nothing, so it must come back as `false` rather
    // than null -- a null would be dropped by a filter, but it would also
    // poison `!expr` for any caller that negates the predicate.
    assert_eq!(out.iter().filter(|v| v.is_none()).count(), 0);
    assert_eq!(out[0], Some(true));
    assert_eq!(out[1], Some(false));
}

#[test]
fn rejects_malformed_bitset() {
    let col = u64_column("k", vec![Some(1u64)]);

    assert!(is_in_bloom_filter(&col, &[]).is_err());
    assert!(is_in_bloom_filter(&col, &vec![0u8; BLOCK_BYTES + 1]).is_err());
    assert!(is_in_bloom_filter(&col, &vec![0u8; BLOCK_BYTES]).is_ok());
}

#[test]
fn rejects_non_u64_input() {
    let bitset = filter_over(&[1]);
    let col = str_column("k", vec![Some("a"), Some("b")]);
    assert!(is_in_bloom_filter(&col, &bitset).is_err());
}

#[test]
fn errors_of_a_probe_say_what_is_wrong() {
    let numbers = u64_column("k", vec![Some(1)]);
    let strings = str_column("k", vec![Some("a")]);
    assert_eq!(
        is_in_bloom_filter(&numbers, &[]).unwrap_err(),
        BooleanError::MalformedBitset { len: 0 }
    );
    assert_eq!(
        is_in_bloom_filter(&strings, &[0u8; 33]).unwrap_err(),
        BooleanError::MalformedBitset { len: 33 }
    );
    assert_eq!(
        is_in_bloom_filter(&strings, &[0u8; 32]).unwrap_err(),
        BooleanError::ExpectedUInt64
    );
}

/// The keys the build side of a join would have produced.
const BUILD_KEYS: [u64; 4] = [10, 20, 30, 40];

fn probe_keys() -> Vec<u64> {
    vec![10u64, 11, 20, 21, 30, 31, 40, 41]
}

/// The values of `keys` that pass the filter of a plan.
fn filtered(keys: &[Option<u64>], bitset: Vec<u8>) -> Vec<Option<u64>> {
    let udf = function_expr_to_udf(IRBooleanFunction::IsInBloomFilter { bitset });
    let mask = match udf.call(&[u64_column("k", keys.to_vec())]) {
        Evaluation::Done(outcome) => booleans(&outcome.unwrap()),
        Evaluation::Run(_) => panic!("no kernel is needed"),
    };
    keys.iter()
        .zip(mask)
        .filter(|(_, keep)| *keep == Some(true))
        .map(|(key, _)| *key)
        .collect()
}

#[test]
fn filters_probe_side_without_dropping_matches() {
    let bitset = filter_over(&BUILD_KEYS);

    let probe: Vec<Option<u64>> = probe_keys().into_iter().map(Some).collect();
    let kept: Vec<u64> = filtered(&probe, bitset).into_iter().flatten().collect();

    // Every real match must survive. The filter is allowed to let extra rows
    // through (false positives), but never to drop a true match.
    for key in BUILD_KEYS {
        assert!(kept.contains(&key), "dropped a true match: {key}");
    }
    // With a filter this small over 4 values, nothing else should slip through.
    assert_eq!(kept, BUILD_KEYS.to_vec());
}

/// The point of the optimization: pre-filtering the probe side must not change
/// the result of the join it feeds.
#[test]
fn prefiltering_does_not_change_join_result() {
    let build: Vec<(u64, &str)> = BUILD_KEYS.into_iter().zip(["a", "b", "c", "d"]).collect();
    let bitset = filter_over(&BUILD_KEYS);
    let join = |probe: Vec<Option<u64>>| -> Vec<(u64, &str)> {
        let mut rows: Vec<(u64, &str)> = probe
            .into_iter()
            .flatten()
            .flat_map(|key| build.iter().filter(move |(k, _)| *k == key).copied())
            .collect();
        rows.sort();
        rows
    };

    let probe: Vec<Option<u64>> = probe_keys().into_iter().map(Some).collect();
    let unfiltered = join(probe.clone());
    let prefiltered = join(filtered(&probe, bitset));

    assert_eq!(unfiltered, prefiltered);
}

#[test]
fn nulls_do_not_survive_the_filter() {
    let bitset = filter_over(&BUILD_KEYS);

    let out = filtered(&[Some(10u64), None, Some(11)], bitset);

    assert_eq!(out.len(), 1);
    assert_eq!(out[0], Some(10));
}

#[test]
fn any_and_all_ignore_nulls_or_leave_the_answer_open() {
    let t = Some(true);
    let f = Some(false);
    let cases: [(Vec<Option<bool>>, bool, Option<bool>, bool, Option<bool>); 6] = [
        (vec![], false, f, true, t),
        (vec![t, None], true, t, true, None),
        (vec![f, None], false, None, false, f),
        (vec![None], false, None, true, None),
        (vec![t, t], true, t, true, t),
        (vec![t, f], true, t, false, f),
    ];
    for (values, any_ignoring, any_kleene, all_ignoring, all_kleene) in cases {
        let col = bool_column("k", values);
        assert_eq!(answer(any(&col, true)), [Some(any_ignoring)]);
        assert_eq!(answer(any(&col, false)), [any_kleene]);
        assert_eq!(answer(all(&col, true)), [Some(all_ignoring)]);
        assert_eq!(answer(all(&col, false)), [all_kleene]);
    }
    let numbers = u64_column("k", vec![Some(1)]);
    assert_eq!(any(&numbers, true).unwrap_err(), BooleanError::ExpectedBoolean);
    assert_eq!(all(&numbers, false).unwrap_err(), BooleanError::ExpectedBoolean);
}

#[test]
fn emptiness_and_nullness() {
    let empty = u64_column("k", vec![]);
    let nulls = str_column("k", vec![None, None]);
    let mixed = str_column("k", vec![Some("a"), None]);

    assert_eq!(answer(is_empty(&empty, false)), [Some(true)]);
    assert_eq!(answer(is_empty(&empty, true)), [Some(true)]);
    assert_eq!(answer(is_empty(&nulls, false)), [Some(false)]);
    assert_eq!(answer(is_empty(&nulls, true)), [Some(true)]);
    assert_eq!(answer(is_empty(&mixed, true)), [Some(false)]);

    assert_eq!(answer(has_nulls(&empty)), [Some(false)]);
    assert_eq!(answer(has_nulls(&mixed)), [Some(true)]);

    assert_eq!(answer(is_null(&mixed)), [Some(false), Some(true)]);
    assert_eq!(answer(is_not_null(&mixed)), [Some(true), Some(false)]);
}

#[test]
fn horizontal_folds_broadcast_and_cast() {
    let t = Some(true);
    let f = Some(false);
    let columns = [
        bool_column("k", vec![t, f, None, f]),
        u64_column("x", vec![Some(0), Some(0), Some(2), None]),
        bool_column("one", vec![f]),
    ];
    assert_eq!(answer(any_horizontal(&columns)), [t, f, t, None]);

    let columns = [
        bool_column("k", vec![t, f, None, t]),
        u64_column("x", vec![Some(3), None, Some(2), None]),
        bool_column("one", vec![t]),
    ];
    assert_eq!(answer(all_horizontal(&columns)), [t, f, None, None]);

    let single = [bool_column("k", vec![t])];
    assert_eq!(answer(any_horizontal(&single)), [t]);
    let none = [bool_column("k", vec![])];
    assert_eq!(answer(all_horizontal(&none)), []);
}

#[test]
fn horizontal_folds_reject_what_is_no_boolean() {
    let columns = [
        bool_column("k", vec![Some(true)]),
        str_column("s", vec![Some("true")]),
    ];
    assert_eq!(any_horizontal(&columns).unwrap_err(), BooleanError::InvalidCast);
    assert_eq!(all_horizontal(&columns).unwrap_err(), BooleanError::InvalidCast);
}

#[test]
fn folding_in_groups_gives_the_same() {
    let t = Some(true);
    let f = Some(false);
    let a = vec![t, f, None, None];
    let b = vec![f, None, t, f];
    let c = vec![None, f, f, t];
    let whole = answer(any_horizontal(&[
        bool_column("k", a.clone()),
        bool_column("b", b.clone()),
        bool_column("c", c.clone()),
    ]));
    let right = answer(any_horizontal(&[bool_column("k", b), bool_column("c", c)]));
    let grouped = answer(any_horizontal(&[bool_column("k", a), bool_column("bc", right)]));
    assert_eq!(whole, grouped);
}

fn run(function: IRBooleanFunction, columns: &[Column]) -> Evaluation {
    function_expr_to_udf(function).call(columns)
}

#[test]
fn functions_go_to_their_implementation_or_kernel() {
    let k = [bool_column("k", vec![Some(true), None])];
    match run(IRBooleanFunction::Any { ignore_nulls: true }, &k) {
        Evaluation::Done(outcome) => assert_eq!(answer(outcome), [Some(true)]),
        Evaluation::Run(_) => panic!("no kernel is needed"),
    }
    match run(IRBooleanFunction::All { ignore_nulls: false }, &k) {
        Evaluation::Done(outcome) => assert_eq!(answer(outcome), [None]),
        Evaluation::Run(_) => panic!("no kernel is needed"),
    }
    match run(IRBooleanFunction::HasNulls, &k) {
        Evaluation::Done(outcome) => assert_eq!(answer(outcome), [Some(true)]),
        Evaluation::Run(_) => panic!("no kernel is needed"),
    }
    match run(IRBooleanFunction::AnyHorizontal, &k) {
        Evaluation::Done(outcome) => assert_eq!(answer(outcome), [Some(true), None]),
        Evaluation::Run(_) => panic!("no kernel is needed"),
    }

    let three = [
        u64_column("k", vec![Some(1)]),
        u64_column("low", vec![Some(0)]),
        u64_column("high", vec![Some(2)]),
    ];
    let closed = ClosedInterval::Both;
    match run(IRBooleanFunction::IsBetween { closed }, &three) {
        Evaluation::Run(kernel) => {
            assert_eq!(kernel, Kernel::IsBetween { closed });
            assert_eq!(kernel.num_inputs(), 3);
        },
        Evaluation::Done(_) => panic!("a kernel is needed"),
    }
    match run(IRBooleanFunction::Not, &k) {
        Evaluation::Run(kernel) => {
            assert_eq!(kernel, Kernel::Negate);
            assert_eq!(kernel.num_inputs(), 1);
        },
        Evaluation::Done(_) => panic!("a kernel is needed"),
    }
}

#[test]
fn a_kernel_answer_becomes_a_column() {
    let udf = function_expr_to_udf(IRBooleanFunction::IsSorted {
        descending: Some(false),
        nulls_last: None,
    });
    let columns = [u64_column("k", vec![Some(1), Some(2)])];
    assert_eq!(answer(udf.finish(&columns, KernelAnswer::Flag(true))), [Some(true)]);

    let udf = function_expr_to_udf(IRBooleanFunction::IsNan);
    let made = bool_column("k", vec![Some(false), None]);
    assert_eq!(
        answer(udf.finish(&columns, KernelAnswer::Values(made))),
        [Some(false), None]
    );
}

#[test]
fn columns_fit_a_function_or_not() {
    let one = [u64_column("a", vec![Some(1), Some(2)])];
    let two = [
        bool_column("a", vec![Some(true), None]),
        bool_column("b", vec![Some(true), None, None]),
    ];
    let udf = function_expr_to_udf(IRBooleanFunction::AnyHorizontal);
    assert!(udf.applies_to(&one));
    assert!(!udf.applies_to(&two));
    assert!(!udf.applies_to(&[]));

    let closed = ClosedInterval::Both;
    let udf = function_expr_to_udf(IRBooleanFunction::IsBetween { closed });
    assert!(!udf.applies_to(&two));
    let udf = function_expr_to_udf(IRBooleanFunction::IsInBloomFilter { bitset: vec![0; 7] });
    assert!(udf.applies_to(&one));
}

#[test]
fn columns_of_other_types_have_length_and_nulls() {
    let dates = Column {
        name: "k".to_string(),
        values: ColumnValues::Other(vec![false, true, false]),
    };
    assert_eq!(answer(is_null(&dates)), [Some(false), Some(true), Some(false)]);
    assert_eq!(answer(is_not_null(&dates)), [Some(true), Some(false), Some(true)]);
    assert_eq!(answer(has_nulls(&dates)), [Some(true)]);
    assert_eq!(answer(is_empty(&dates, true)), [Some(false)]);
    assert_eq!(any(&dates, true).unwrap_err(), BooleanError::ExpectedBoolean);
    assert_eq!(any_horizontal(&[dates]).unwrap_err(), BooleanError::InvalidCast);

    let small = Column {
        name: "k".to_string(),
        values: ColumnValues::Number(vec![Some(true), Some(false), None]),
    };
    assert_eq!(answer(is_null(&small)), [Some(false), Some(false), Some(true)]);
    assert_eq!(
        answer(all_horizontal(&[small])),
        [Some(true), Some(false), None]
    );
}
