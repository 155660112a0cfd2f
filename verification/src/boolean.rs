//! Boolean functions of columns.

use crate::bloom_filter::{is_in_set, BLOCK_BYTES};
use vstd::prelude::*;

#[allow(unused_imports)]
use crate::bloom_filter::{accepts, valid_len};

verus! {

/// The values of a column, where `None` is null.
#[derive(Debug)]
pub enum ColumnValues {
    Boolean(Vec<Option<bool>>),
    UInt64(Vec<Option<u64>>),
    Str(Vec<Option<String>>),
    /// Numbers of any other type: whether each is other than zero.
    Number(Vec<Option<bool>>),
    /// Values of any other type: whether each is null.
    Other(Vec<bool>),
}

/// A named column.
#[derive(Debug)]
pub struct Column {
    pub name: String,
    pub values: ColumnValues,
}

/// Why a function could not be evaluated.
#[derive(Clone, Copy, Debug, PartialEq, Eq, Structural)]
pub enum BooleanError {
    /// The bitset of a bloom filter must be a non-zero multiple of
    /// [`BLOCK_BYTES`] bytes; this many were given.
    MalformedBitset { len: usize },
    /// The column does not hold booleans.
    ExpectedBoolean,
    /// The column does not hold unsigned 64-bit integers.
    ExpectedUInt64,
    /// The column's values cannot be read as booleans.
    InvalidCast,
}

impl ColumnValues {
    /// The number of values.
    pub open spec fn len(&self) -> nat {
        match self {
            ColumnValues::Boolean(v) => v@.len(),
            ColumnValues::UInt64(v) => v@.len(),
            ColumnValues::Str(v) => v@.len(),
            ColumnValues::Number(v) => v@.len(),
            ColumnValues::Other(v) => v@.len(),
        }
    }

    /// Whether the value at `i` is null.
    pub open spec fn null_at(&self, i: int) -> bool {
        match self {
            ColumnValues::Boolean(v) => v@[i] is None,
            ColumnValues::UInt64(v) => v@[i] is None,
            ColumnValues::Str(v) => v@[i] is None,
            ColumnValues::Number(v) => v@[i] is None,
            ColumnValues::Other(v) => v@[i],
        }
    }

    /// The values as booleans: numbers are true unless zero, and no other values
    /// can be read.
    pub open spec fn booleans(&self) -> Option<Seq<Option<bool>>> {
        match self {
            ColumnValues::Boolean(v) => Some(v@),
            ColumnValues::UInt64(v) => Some(
                v@.map_values(
                    |x: Option<u64>|
                        match x {
                            Some(x) => Some(x != 0),
                            None => None,
                        },
                ),
            ),
            ColumnValues::Number(v) => Some(v@),
            _ => None,
        }
    }

    fn count(&self) -> (len: usize)
        ensures
            len == self.len(),
    {
        match self {
            ColumnValues::Boolean(v) => v.len(),
            ColumnValues::UInt64(v) => v.len(),
            ColumnValues::Str(v) => v.len(),
            ColumnValues::Number(v) => v.len(),
            ColumnValues::Other(v) => v.len(),
        }
    }

    fn is_null_at(&self, i: usize) -> (null: bool)
        requires
            i < self.len(),
        ensures
            null == self.null_at(i as int),
    {
        match self {
            ColumnValues::Boolean(v) => v[i].is_none(),
            ColumnValues::UInt64(v) => v[i].is_none(),
            ColumnValues::Str(v) => v[i].is_none(),
            ColumnValues::Number(v) => v[i].is_none(),
            ColumnValues::Other(v) => v[i],
        }
    }

    fn to_booleans(&self) -> (booleans: Result<Vec<Option<bool>>, BooleanError>)
        ensures
            match self.booleans() {
                Some(values) => booleans is Ok && booleans->Ok_0@ == values,
                None => booleans == Err::<Vec<Option<bool>>, _>(BooleanError::InvalidCast),
            },
    {
        match self {
            ColumnValues::Boolean(v) => Ok(copied(v)),
            ColumnValues::Number(v) => Ok(copied(v)),
            ColumnValues::UInt64(v) => {
                let ghost values = self.booleans()->0;
                let mut out: Vec<Option<bool>> = Vec::with_capacity(v.len());
                let mut i: usize = 0;
                while i < v.len()
                    invariant
                        i <= v@.len(),
                        values.len() == v@.len(),
                        forall|k: int|
                            0 <= k < v@.len() ==> #[trigger] values[k] == match v@[k] {
                                Some(x) => Some(x != 0),
                                None => None,
                            },
                        out@ == values.take(i as int),
                    decreases v@.len() - i,
                {
                    let value: Option<bool> = match v[i] {
                        Some(x) => Some(x != 0),
                        None => None,
                    };
                    out.push(value);
                    i = i + 1;
                    assert(out@ =~= values.take(i as int));
                }
                assert(values.take(i as int) =~= values);
                Ok(out)
            },
            _ => Err(BooleanError::InvalidCast),
        }
    }
}

fn copied(v: &Vec<Option<bool>>) -> (out: Vec<Option<bool>>)
    ensures
        out@ == v@,
{
    let mut out: Vec<Option<bool>> = Vec::with_capacity(v.len());
    let mut i: usize = 0;
    while i < v.len()
        invariant
            i <= v@.len(),
            out@ == v@.take(i as int),
        decreases v@.len() - i,
    {
        out.push(v[i]);
        i = i + 1;
        assert(out@ =~= v@.take(i as int));
    }
    assert(v@.take(i as int) =~= v@);
    out
}

/// The outcome is a boolean column with this name and these values.
pub open spec fn is_column(
    outcome: Result<Column, BooleanError>,
    name: String,
    values: Seq<Option<bool>>,
) -> bool {
    &&& outcome is Ok
    &&& outcome->Ok_0.name@ == name@
    &&& outcome->Ok_0.values is Boolean
    &&& outcome->Ok_0.values->Boolean_0@ == values
}

/// Whether any of the values is `value`.
pub open spec fn has_value(values: Seq<Option<bool>>, value: Option<bool>) -> bool {
    exists|i: int| 0 <= i < values.len() && #[trigger] values[i] == value
}

/// Whether any of the values is true, or unknown where a null could be.
pub open spec fn any_kleene(values: Seq<Option<bool>>) -> Option<bool> {
    if has_value(values, Some(true)) {
        Some(true)
    } else if has_value(values, None) {
        None
    } else {
        Some(false)
    }
}

/// Whether all of the values are true, or unknown where a null might not be.
pub open spec fn all_kleene(values: Seq<Option<bool>>) -> Option<bool> {
    if has_value(values, Some(false)) {
        Some(false)
    } else if has_value(values, None) {
        None
    } else {
        Some(true)
    }
}

fn contains(values: &Vec<Option<bool>>, value: Option<bool>) -> (found: bool)
    ensures
        found == has_value(values@, value),
{
    let mut i: usize = 0;
    while i < values.len()
        invariant
            i <= values@.len(),
            forall|k: int| 0 <= k < i ==> #[trigger] values@[k] != value,
        decreases values@.len() - i,
    {
        let same: bool = match (values[i], value) {
            (Some(a), Some(b)) => a == b,
            (None, None) => true,
            _ => false,
        };
        if same {
            assert(values@[i as int] == value);
            return true;
        }
        i = i + 1;
    }
    false
}

fn boolean_column(name: &String, values: Vec<Option<bool>>) -> (outcome: Result<Column, BooleanError>)
    ensures
        is_column(outcome, *name, values@),
{
    Ok(Column { name: name.clone(), values: ColumnValues::Boolean(values) })
}

fn scalar(name: &String, value: Option<bool>) -> (outcome: Result<Column, BooleanError>)
    ensures
        is_column(outcome, *name, seq![value]),
{
    let mut values: Vec<Option<bool>> = Vec::new();
    values.push(value);
    assert(values@ =~= seq![value]);
    boolean_column(name, values)
}

/// Whether any value of a boolean column is true. Nulls are ignored, or else
/// leave the answer open where nothing decides it.
pub fn any(s: &Column, ignore_nulls: bool) -> (outcome: Result<Column, BooleanError>)
    ensures
        match s.values {
            ColumnValues::Boolean(v) => is_column(
                outcome,
                s.name,
                seq![
                    if ignore_nulls {
                        Some(has_value(v@, Some(true)))
                    } else {
                        any_kleene(v@)
                    },
                ],
            ),
            _ => outcome == Err::<Column, _>(BooleanError::ExpectedBoolean),
        },
{
    match &s.values {
        ColumnValues::Boolean(v) => {
            let found: bool = contains(v, Some(true));
            if ignore_nulls || found || !contains(v, None) {
                scalar(&s.name, Some(found))
            } else {
                scalar(&s.name, None)
            }
        },
        _ => Err(BooleanError::ExpectedBoolean),
    }
}

/// Whether all values of a boolean column are true. Nulls are ignored, or else
/// leave the answer open where nothing decides it.
pub fn all(s: &Column, ignore_nulls: bool) -> (outcome: Result<Column, BooleanError>)
    ensures
        match s.values {
            ColumnValues::Boolean(v) => is_column(
                outcome,
                s.name,
                seq![
                    if ignore_nulls {
                        Some(!has_value(v@, Some(false)))
                    } else {
                        all_kleene(v@)
                    },
                ],
            ),
            _ => outcome == Err::<Column, _>(BooleanError::ExpectedBoolean),
        },
{
    match &s.values {
        ColumnValues::Boolean(v) => {
            let missed: bool = contains(v, Some(false));
            if ignore_nulls || missed || !contains(v, None) {
                scalar(&s.name, Some(!missed))
            } else {
                scalar(&s.name, None)
            }
        },
        _ => Err(BooleanError::ExpectedBoolean),
    }
}

/// Whether all values are null.
pub open spec fn full_null(values: ColumnValues) -> bool {
    forall|i: int| 0 <= i < values.len() ==> #[trigger] values.null_at(i)
}

/// Whether any value is null.
pub open spec fn any_null(values: ColumnValues) -> bool {
    exists|i: int| 0 <= i < values.len() && #[trigger] values.null_at(i)
}

/// Whether a column has no values, nulls counting or not.
pub fn is_empty(s: &Column, ignore_nulls: bool) -> (outcome: Result<Column, BooleanError>)
    ensures
        is_column(
            outcome,
            s.name,
            seq![
                Some(
                    if ignore_nulls {
                        full_null(s.values)
                    } else {
                        s.values.len() == 0
                    },
                ),
            ],
        ),
{
    if !ignore_nulls {
        return scalar(&s.name, Some(s.values.count() == 0));
    }
    let n: usize = s.values.count();
    let mut i: usize = 0;
    while i < n
        invariant
            i <= n,
            n == s.values.len(),
            forall|k: int| 0 <= k < i ==> #[trigger] s.values.null_at(k),
        decreases n - i,
    {
        if !s.values.is_null_at(i) {
            assert(!s.values.null_at(i as int));
            return scalar(&s.name, Some(false));
        }
        i = i + 1;
    }
    scalar(&s.name, Some(true))
}

/// Whether a column has any null.
pub fn has_nulls(s: &Column) -> (outcome: Result<Column, BooleanError>)
    ensures
        is_column(outcome, s.name, seq![Some(any_null(s.values))]),
{
    let n: usize = s.values.count();
    let mut i: usize = 0;
    while i < n
        invariant
            i <= n,
            n == s.values.len(),
            forall|k: int| 0 <= k < i ==> !#[trigger] s.values.null_at(k),
        decreases n - i,
    {
        if s.values.is_null_at(i) {
            assert(s.values.null_at(i as int));
            return scalar(&s.name, Some(true));
        }
        i = i + 1;
    }
    scalar(&s.name, Some(false))
}

fn nullness(s: &Column, null: bool) -> (outcome: Result<Column, BooleanError>)
    ensures
        is_column(
            outcome,
            s.name,
            Seq::new(s.values.len(), |i: int| Some(s.values.null_at(i) == null)),
        ),
{
    let ghost expected = Seq::new(s.values.len(), |i: int| Some(s.values.null_at(i) == null));
    let n: usize = s.values.count();
    let mut out: Vec<Option<bool>> = Vec::with_capacity(n);
    let mut i: usize = 0;
    while i < n
        invariant
            i <= n,
            n == s.values.len(),
            out@.len() == i,
            forall|k: int| 0 <= k < i ==> #[trigger] out@[k] == Some(s.values.null_at(k) == null),
        decreases n - i,
    {
        out.push(Some(s.values.is_null_at(i) == null));
        i = i + 1;
    }
    assert(out@ =~= expected);
    boolean_column(&s.name, out)
}

/// Which values are null.
pub fn is_null(s: &Column) -> (outcome: Result<Column, BooleanError>)
    ensures
        is_column(
            outcome,
            s.name,
            Seq::new(s.values.len(), |i: int| Some(s.values.null_at(i))),
        ),
{
    let outcome = nullness(s, true);
    assert(outcome->Ok_0.values->Boolean_0@ =~= Seq::new(
        s.values.len(),
        |i: int| Some(s.values.null_at(i)),
    ));
    outcome
}

/// Which values are not null.
pub fn is_not_null(s: &Column) -> (outcome: Result<Column, BooleanError>)
    ensures
        is_column(
            outcome,
            s.name,
            Seq::new(s.values.len(), |i: int| Some(!s.values.null_at(i))),
        ),
{
    let outcome = nullness(s, false);
    assert(outcome->Ok_0.values->Boolean_0@ =~= Seq::new(
        s.values.len(),
        |i: int| Some(!s.values.null_at(i)),
    ));
    outcome
}

/// What probing a filter says of each value.
pub open spec fn probed(bitset: Seq<u8>, values: Seq<Option<u64>>) -> Seq<Option<bool>> {
    values.map_values(
        |v: Option<u64>|
            match v {
                Some(v) => Some(accepts(bitset, v)),
                None => Some(false),
            },
    )
}

/// Probes a split-block bloom filter with the unsigned 64-bit values of `c`.
///
/// Nulls yield `false`: a null join key matches nothing. False positives are
/// possible by construction; false negatives are not.
pub fn is_in_bloom_filter(c: &Column, bitset: &[u8]) -> (outcome: Result<Column, BooleanError>)
    requires
        bitset@.len() > 0 && bitset@.len() % 32 == 0 ==> valid_len(bitset@.len()),
    ensures
        bitset@.len() == 0 || bitset@.len() % 32 != 0 ==> outcome == Err::<Column, _>(
            BooleanError::MalformedBitset { len: bitset@.len() as usize },
        ),
        bitset@.len() > 0 && bitset@.len() % 32 == 0 ==> match c.values {
            ColumnValues::UInt64(v) => is_column(outcome, c.name, probed(bitset@, v@)),
            _ => outcome == Err::<Column, _>(BooleanError::ExpectedUInt64),
        },
{
    if bitset.len() == 0 || bitset.len() % BLOCK_BYTES != 0 {
        return Err(BooleanError::MalformedBitset { len: bitset.len() });
    }
    match &c.values {
        ColumnValues::UInt64(v) => {
            let ghost expected = probed(bitset@, v@);
            let mut out: Vec<Option<bool>> = Vec::with_capacity(v.len());
            let mut i: usize = 0;
            while i < v.len()
                invariant
                    i <= v@.len(),
                    valid_len(bitset@.len()),
                    out@.len() == i,
                    forall|k: int|
                        0 <= k < i ==> #[trigger] out@[k] == match v@[k] {
                            Some(x) => Some(accepts(bitset@, x)),
                            None => Some(false),
                        },
                decreases v@.len() - i,
            {
                let hit: bool = match v[i] {
                    Some(x) => is_in_set(bitset, x),
                    None => false,
                };
                out.push(Some(hit));
                i = i + 1;
            }
            assert(out@ =~= expected);
            boolean_column(&c.name, out)
        },
        _ => Err(BooleanError::ExpectedUInt64),
    }
}

/// `a or b`, where null is unknown.
pub open spec fn or(a: Option<bool>, b: Option<bool>) -> Option<bool> {
    if a == Some(true) || b == Some(true) {
        Some(true)
    } else if a is None || b is None {
        None
    } else {
        Some(false)
    }
}

/// `a and b`, where null is unknown.
pub open spec fn and(a: Option<bool>, b: Option<bool>) -> Option<bool> {
    if a == Some(false) || b == Some(false) {
        Some(false)
    } else if a is None || b is None {
        None
    } else {
        Some(true)
    }
}

/// `a or b` for a disjunction, `a and b` for a conjunction.
pub open spec fn combine(disjunction: bool, a: Option<bool>, b: Option<bool>) -> Option<bool> {
    if disjunction {
        or(a, b)
    } else {
        and(a, b)
    }
}

/// The value at `i` of values that are as many as needed, or a single one for all.
pub open spec fn broadcast_at(values: Seq<Option<bool>>, i: int) -> Option<bool> {
    if values.len() == 1 {
        values[0]
    } else {
        values[i]
    }
}

/// The number of rows that two lengths make together, where a single value
/// stands for all.
pub open spec fn broadcast_len(a: nat, b: nat) -> nat {
    if a == 1 {
        b
    } else {
        a
    }
}

/// Rows combined one by one.
pub open spec fn combine_rows(
    disjunction: bool,
    a: Seq<Option<bool>>,
    b: Seq<Option<bool>>,
) -> Seq<Option<bool>> {
    Seq::new(
        broadcast_len(a.len(), b.len()),
        |i: int| combine(disjunction, broadcast_at(a, i), broadcast_at(b, i)),
    )
}

/// All columns combined row by row, starting from the neutral value.
pub open spec fn horizontal(disjunction: bool, columns: Seq<Column>) -> Seq<Option<bool>>
    decreases columns.len(),
{
    if columns.len() == 0 {
        seq![Some(!disjunction)]
    } else {
        combine_rows(
            disjunction,
            horizontal(disjunction, columns.drop_last()),
            columns.last().values.booleans()->0,
        )
    }
}

/// The columns are of one length, or of a single value.
pub open spec fn lengths_agree(columns: Seq<Column>, n: nat) -> bool {
    forall|i: int|
        0 <= i < columns.len() ==> (#[trigger] columns[i]).values.len() == n
            || columns[i].values.len() == 1
}

/// Whether the columns are of one length, or of a single value.
fn have_one_length(s: &[Column]) -> (agree: bool)
    ensures
        agree == (exists|n: nat| lengths_agree(s@, n)),
{
    let mut len: usize = 1;
    let mut i: usize = 0;
    while i < s.len()
        invariant
            i <= s@.len(),
            lengths_agree(s@.take(i as int), len as nat),
            len == 1 || exists|j: int|
                0 <= j < i && (#[trigger] s@[j]).values.len() == len,
        decreases s@.len() - i,
    {
        let count: usize = s[i].values.count();
        proof {
            assert(s@.take(i + 1).drop_last() =~= s@.take(i as int));
            assert forall|k: int| 0 <= k < i implies (#[trigger] s@[k]).values.len() == len
                || s@[k].values.len() == 1 by {
                assert(s@.take(i as int)[k] == s@[k]);
            }
        }
        if count != 1 {
            if len != 1 && count != len {
                proof {
                    let j = choose|j: int| 0 <= j < i && (#[trigger] s@[j]).values.len() == len;
                    assert forall|n: nat| !lengths_agree(s@, n) by {
                        if lengths_agree(s@, n) {
                            assert(s@[j].values.len() == n);
                            assert(s@[i as int].values.len() == n);
                        }
                    }
                }
                return false;
            }
            len = count;
        }
        i = i + 1;
    }
    assert(s@.take(i as int) =~= s@);
    true
}

fn combine_values(disjunction: bool, a: Option<bool>, b: Option<bool>) -> (c: Option<bool>)
    ensures
        c == combine(disjunction, a, b),
{
    match (a, b) {
        (Some(a), Some(b)) => if disjunction {
            Some(a || b)
        } else {
            Some(a && b)
        },
        (Some(a), None) => if a == disjunction {
            Some(a)
        } else {
            None
        },
        (None, Some(b)) => if b == disjunction {
            Some(b)
        } else {
            None
        },
        (None, None) => None,
    }
}

fn combine_columns(disjunction: bool, a: &Vec<Option<bool>>, b: &Vec<Option<bool>>) -> (out: Vec<
    Option<bool>,
>)
    requires
        a@.len() == 1 || b@.len() == 1 || a@.len() == b@.len(),
    ensures
        out@ == combine_rows(disjunction, a@, b@),
{
    let n: usize = if a.len() == 1 {
        b.len()
    } else {
        a.len()
    };
    let mut out: Vec<Option<bool>> = Vec::with_capacity(n);
    let mut i: usize = 0;
    while i < n
        invariant
            i <= n,
            n == broadcast_len(a@.len(), b@.len()),
            a@.len() == 1 || b@.len() == 1 || a@.len() == b@.len(),
            out@.len() == i,
            forall|k: int|
                0 <= k < i ==> #[trigger] out@[k] == combine(
                    disjunction,
                    broadcast_at(a@, k),
                    broadcast_at(b@, k),
                ),
        decreases n - i,
    {
        let x: Option<bool> = if a.len() == 1 {
            a[0]
        } else {
            a[i]
        };
        let y: Option<bool> = if b.len() == 1 {
            b[0]
        } else {
            b[i]
        };
        out.push(combine_values(disjunction, x, y));
        i = i + 1;
    }
    assert(out@ =~= combine_rows(disjunction, a@, b@));
    out
}

proof fn lemma_horizontal_len(disjunction: bool, columns: Seq<Column>, n: nat)
    requires
        lengths_agree(columns, n),
        forall|i: int|
            0 <= i < columns.len() ==> (#[trigger] columns[i]).values.booleans() is Some,
    ensures
        horizontal(disjunction, columns).len() == n || horizontal(disjunction, columns).len() == 1,
    decreases columns.len(),
{
    if columns.len() > 0 {
        let rest = columns.drop_last();
        assert forall|i: int| 0 <= i < rest.len() implies (
        #[trigger] rest[i]).values.booleans() is Some && (rest[i].values.len() == n
            || rest[i].values.len() == 1) by {
            assert(columns[i].values.booleans() is Some);
        }
        lemma_horizontal_len(disjunction, rest, n);
        let last = columns[columns.len() - 1];
        assert(last.values.booleans() is Some);
        assert(last.values.booleans()->0.len() == last.values.len());
    }
}

fn fold_columns(disjunction: bool, s: &[Column]) -> (outcome: Result<Column, BooleanError>)
    requires
        s@.len() > 0,
        exists|n: nat| lengths_agree(s@, n),
    ensures
        (exists|i: int| 0 <= i < s@.len() && (#[trigger] s@[i]).values.booleans() is None)
            ==> outcome == Err::<Column, _>(BooleanError::InvalidCast),
        (forall|i: int| 0 <= i < s@.len() ==> (#[trigger] s@[i]).values.booleans() is Some)
            ==> is_column(outcome, s@[0].name, horizontal(disjunction, s@)),
{
    let ghost n = choose|n: nat| lengths_agree(s@, n);
    let mut acc: Vec<Option<bool>> = Vec::new();
    acc.push(Some(!disjunction));
    assert(acc@ =~= horizontal(disjunction, s@.take(0)));
    let mut i: usize = 0;
    while i < s.len()
        invariant
            i <= s@.len(),
            lengths_agree(s@, n),
            forall|k: int| 0 <= k < i ==> (#[trigger] s@[k]).values.booleans() is Some,
            acc@ == horizontal(disjunction, s@.take(i as int)),
        decreases s@.len() - i,
    {
        let values: Vec<Option<bool>> = match s[i].values.to_booleans() {
            Ok(values) => values,
            Err(error) => {
                assert(s@[i as int].values.booleans() is None);
                return Err(error);
            },
        };
        proof {
            lemma_horizontal_len(disjunction, s@.take(i as int), n);
            assert(s@.take(i + 1).drop_last() =~= s@.take(i as int));
            assert(s@[i as int].values.booleans()->0.len() == s@[i as int].values.len());
        }
        acc = combine_columns(disjunction, &acc, &values);
        i = i + 1;
    }
    assert(s@.take(i as int) =~= s@);
    boolean_column(&s[0].name, acc)
}

/// Whether any column is true, row by row. Nulls leave a row open where nothing
/// decides it.
pub fn any_horizontal(s: &[Column]) -> (outcome: Result<Column, BooleanError>)
    requires
        s@.len() > 0,
        exists|n: nat| lengths_agree(s@, n),
    ensures
        (exists|i: int| 0 <= i < s@.len() && (#[trigger] s@[i]).values.booleans() is None)
            ==> outcome == Err::<Column, _>(BooleanError::InvalidCast),
        (forall|i: int| 0 <= i < s@.len() ==> (#[trigger] s@[i]).values.booleans() is Some)
            ==> is_column(outcome, s@[0].name, horizontal(true, s@)),
{
    fold_columns(true, s)
}

/// Whether all columns are true, row by row. Nulls leave a row open where
/// nothing decides it.
pub fn all_horizontal(s: &[Column]) -> (outcome: Result<Column, BooleanError>)
    requires
        s@.len() > 0,
        exists|n: nat| lengths_agree(s@, n),
    ensures
        (exists|i: int| 0 <= i < s@.len() && (#[trigger] s@[i]).values.booleans() is None)
            ==> outcome == Err::<Column, _>(BooleanError::InvalidCast),
        (forall|i: int| 0 <= i < s@.len() ==> (#[trigger] s@[i]).values.booleans() is Some)
            ==> is_column(outcome, s@[0].name, horizontal(false, s@)),
{
    fold_columns(false, s)
}

/// Which ends of an interval belong to it.
#[derive(Clone, Copy, Debug, PartialEq, Eq, Structural)]
pub enum ClosedInterval {
    Both,
    Left,
    Right,
    Neither,
}

/// A boolean function of an expression.
#[derive(Debug)]
pub enum IRBooleanFunction {
    Any { ignore_nulls: bool },
    All { ignore_nulls: bool },
    IsEmpty { ignore_nulls: bool },
    HasNulls,
    IsNull,
    IsNotNull,
    IsFinite,
    IsInfinite,
    IsNan,
    IsNotNan,
    IsFirstDistinct,
    IsLastDistinct,
    IsUnique,
    IsDuplicated,
    IsBetween { closed: ClosedInterval },
    IsIn { nulls_equal: bool },
    /// The tolerances are given by the bits of their numbers.
    IsClose { abs_tol: u64, rel_tol: u64, nans_equal: bool },
    IsSorted { descending: Option<bool>, nulls_last: Option<bool> },
    IsInBloomFilter { bitset: Vec<u8> },
    Not,
    AllHorizontal,
    AnyHorizontal,
}

/// A kernel over columns of any type that a function is evaluated by.
#[derive(Clone, Copy, Debug, PartialEq, Eq, Structural)]
pub enum Kernel {
    IsFinite,
    IsInfinite,
    IsNan,
    IsNotNan,
    IsFirstDistinct,
    IsLastDistinct,
    IsUnique,
    IsDuplicated,
    IsBetween { closed: ClosedInterval },
    IsIn { nulls_equal: bool },
    IsClose { abs_tol: u64, rel_tol: u64, nans_equal: bool },
    IsSorted { descending: Option<bool>, nulls_last: Option<bool> },
    Negate,
}

impl Kernel {
    /// How many columns the kernel reads, from the first.
    pub open spec fn reads(self) -> nat {
        match self {
            Kernel::IsBetween { .. } => 3,
            Kernel::IsIn { .. } => 2,
            Kernel::IsClose { .. } => 2,
            _ => 1,
        }
    }

    /// How many columns the kernel reads, from the first.
    pub fn num_inputs(&self) -> (n: usize)
        ensures
            n == self.reads(),
    {
        match self {
            Kernel::IsBetween { .. } => 3,
            Kernel::IsIn { .. } => 2,
            Kernel::IsClose { .. } => 2,
            _ => 1,
        }
    }
}

impl IRBooleanFunction {
    /// The kernel that evaluates the function, if one does.
    pub open spec fn kernel(self) -> Option<Kernel> {
        match self {
            IRBooleanFunction::IsFinite => Some(Kernel::IsFinite),
            IRBooleanFunction::IsInfinite => Some(Kernel::IsInfinite),
            IRBooleanFunction::IsNan => Some(Kernel::IsNan),
            IRBooleanFunction::IsNotNan => Some(Kernel::IsNotNan),
            IRBooleanFunction::IsFirstDistinct => Some(Kernel::IsFirstDistinct),
            IRBooleanFunction::IsLastDistinct => Some(Kernel::IsLastDistinct),
            IRBooleanFunction::IsUnique => Some(Kernel::IsUnique),
            IRBooleanFunction::IsDuplicated => Some(Kernel::IsDuplicated),
            IRBooleanFunction::IsBetween { closed } => Some(Kernel::IsBetween { closed }),
            IRBooleanFunction::IsIn { nulls_equal } => Some(Kernel::IsIn { nulls_equal }),
            IRBooleanFunction::IsClose { abs_tol, rel_tol, nans_equal } => Some(
                Kernel::IsClose { abs_tol, rel_tol, nans_equal },
            ),
            IRBooleanFunction::IsSorted { descending, nulls_last } => Some(
                Kernel::IsSorted { descending, nulls_last },
            ),
            IRBooleanFunction::Not => Some(Kernel::Negate),
            _ => None,
        }
    }

    /// The columns are as the function needs them.
    pub open spec fn applies(self, s: Seq<Column>) -> bool {
        match self {
            IRBooleanFunction::AllHorizontal => s.len() > 0 && exists|n: nat| lengths_agree(s, n),
            IRBooleanFunction::AnyHorizontal => s.len() > 0 && exists|n: nat| lengths_agree(s, n),
            IRBooleanFunction::IsInBloomFilter { bitset } => s.len() > 0 && (bitset@.len() > 0
                && bitset@.len() % 32 == 0 ==> valid_len(bitset@.len())),
            _ => match self.kernel() {
                Some(kernel) => s.len() >= kernel.reads(),
                None => s.len() > 0,
            },
        }
    }
}

/// A function over columns.
pub struct ColumnsUdf {
    function: IRBooleanFunction,
}

/// How far a function got by itself.
#[derive(Debug)]
pub enum Evaluation {
    /// It was evaluated.
    Done(Result<Column, BooleanError>),
    /// This kernel is to be run on the columns.
    Run(Kernel),
}

/// What a kernel answered.
#[derive(Debug)]
pub enum KernelAnswer {
    /// A column, for a kernel that goes through the values.
    Values(Column),
    /// One answer for the whole column.
    Flag(bool),
}

/// The evaluation ended with this outcome.
pub open spec fn done(evaluation: Evaluation) -> Result<Column, BooleanError> {
    evaluation->Done_0
}

/// Makes a function over columns of a boolean function.
pub fn function_expr_to_udf(func: IRBooleanFunction) -> (udf: ColumnsUdf)
    ensures
        udf.function() == func,
{
    ColumnsUdf { function: func }
}

impl ColumnsUdf {
    /// The boolean function.
    pub closed spec fn function(self) -> IRBooleanFunction {
        self.function
    }

    /// Whether the columns are as the function needs them.
    pub fn applies_to(&self, s: &[Column]) -> (applies: bool)
        ensures
            applies == self.function().applies(s@),
    {
        match &self.function {
            IRBooleanFunction::AllHorizontal => s.len() > 0 && have_one_length(s),
            IRBooleanFunction::AnyHorizontal => s.len() > 0 && have_one_length(s),
            IRBooleanFunction::IsInBloomFilter { bitset } => s.len() > 0 && (bitset.len() == 0
                || bitset.len() % BLOCK_BYTES != 0 || bitset.len() as u64 / 32 <= 0x1_0000_0001),
            IRBooleanFunction::IsBetween { .. } => s.len() >= 3,
            IRBooleanFunction::IsIn { .. } => s.len() >= 2,
            IRBooleanFunction::IsClose { .. } => s.len() >= 2,
            _ => s.len() > 0,
        }
    }

    /// Evaluates the function, or says which kernel does.
    pub fn call(&self, s: &[Column]) -> (evaluation: Evaluation)
        requires
            self.function().applies(s@),
        ensures
            match self.function().kernel() {
                Some(kernel) => evaluation == Evaluation::Run(kernel),
                None => evaluation is Done && evaluates(self.function(), s@, done(evaluation)),
            },
    {
        match &self.function {
            IRBooleanFunction::Any { ignore_nulls } => Evaluation::Done(any(&s[0], *ignore_nulls)),
            IRBooleanFunction::All { ignore_nulls } => Evaluation::Done(all(&s[0], *ignore_nulls)),
            IRBooleanFunction::IsEmpty { ignore_nulls } => Evaluation::Done(
                is_empty(&s[0], *ignore_nulls),
            ),
            IRBooleanFunction::HasNulls => Evaluation::Done(has_nulls(&s[0])),
            IRBooleanFunction::IsNull => Evaluation::Done(is_null(&s[0])),
            IRBooleanFunction::IsNotNull => Evaluation::Done(is_not_null(&s[0])),
            IRBooleanFunction::IsFinite => Evaluation::Run(Kernel::IsFinite),
            IRBooleanFunction::IsInfinite => Evaluation::Run(Kernel::IsInfinite),
            IRBooleanFunction::IsNan => Evaluation::Run(Kernel::IsNan),
            IRBooleanFunction::IsNotNan => Evaluation::Run(Kernel::IsNotNan),
            IRBooleanFunction::IsFirstDistinct => Evaluation::Run(Kernel::IsFirstDistinct),
            IRBooleanFunction::IsLastDistinct => Evaluation::Run(Kernel::IsLastDistinct),
            IRBooleanFunction::IsUnique => Evaluation::Run(Kernel::IsUnique),
            IRBooleanFunction::IsDuplicated => Evaluation::Run(Kernel::IsDuplicated),
            IRBooleanFunction::IsBetween { closed } => Evaluation::Run(
                Kernel::IsBetween { closed: *closed },
            ),
            IRBooleanFunction::IsIn { nulls_equal } => Evaluation::Run(
                Kernel::IsIn { nulls_equal: *nulls_equal },
            ),
            IRBooleanFunction::IsClose { abs_tol, rel_tol, nans_equal } => Evaluation::Run(
                Kernel::IsClose { abs_tol: *abs_tol, rel_tol: *rel_tol, nans_equal: *nans_equal },
            ),
            IRBooleanFunction::IsSorted { descending, nulls_last } => Evaluation::Run(
                Kernel::IsSorted { descending: *descending, nulls_last: *nulls_last },
            ),
            IRBooleanFunction::IsInBloomFilter { bitset } => Evaluation::Done(
                is_in_bloom_filter(&s[0], bitset.as_slice()),
            ),
            IRBooleanFunction::Not => Evaluation::Run(Kernel::Negate),
            IRBooleanFunction::AllHorizontal => Evaluation::Done(all_horizontal(s)),
            IRBooleanFunction::AnyHorizontal => Evaluation::Done(any_horizontal(s)),
        }
    }

    /// Goes on after the function's kernel answered: a kernel that goes through
    /// the values has made the column, and one answer for the whole column makes
    /// a column of one value.
    pub fn finish(&self, s: &[Column], answer: KernelAnswer) -> (outcome: Result<
        Column,
        BooleanError,
    >)
        requires
            s@.len() > 0,
        ensures
            match answer {
                KernelAnswer::Values(column) => outcome == Ok::<Column, BooleanError>(column),
                KernelAnswer::Flag(flag) => is_column(outcome, s@[0].name, seq![Some(flag)]),
            },
    {
        match answer {
            KernelAnswer::Values(column) => Ok(column),
            KernelAnswer::Flag(flag) => scalar(&s[0].name, Some(flag)),
        }
    }
}

/// The outcome of a function that no kernel evaluates.
pub open spec fn evaluates(
    function: IRBooleanFunction,
    s: Seq<Column>,
    outcome: Result<Column, BooleanError>,
) -> bool {
    match function {
        IRBooleanFunction::Any { ignore_nulls } => match s[0].values {
            ColumnValues::Boolean(v) => is_column(
                outcome,
                s[0].name,
                seq![
                    if ignore_nulls {
                        Some(has_value(v@, Some(true)))
                    } else {
                        any_kleene(v@)
                    },
                ],
            ),
            _ => outcome == Err::<Column, _>(BooleanError::ExpectedBoolean),
        },
        IRBooleanFunction::All { ignore_nulls } => match s[0].values {
            ColumnValues::Boolean(v) => is_column(
                outcome,
                s[0].name,
                seq![
                    if ignore_nulls {
                        Some(!has_value(v@, Some(false)))
                    } else {
                        all_kleene(v@)
                    },
                ],
            ),
            _ => outcome == Err::<Column, _>(BooleanError::ExpectedBoolean),
        },
        IRBooleanFunction::IsEmpty { ignore_nulls } => is_column(
            outcome,
            s[0].name,
            seq![
                Some(
                    if ignore_nulls {
                        full_null(s[0].values)
                    } else {
                        s[0].values.len() == 0
                    },
                ),
            ],
        ),
        IRBooleanFunction::HasNulls => is_column(
            outcome,
            s[0].name,
            seq![Some(any_null(s[0].values))],
        ),
        IRBooleanFunction::IsNull => is_column(
            outcome,
            s[0].name,
            Seq::new(s[0].values.len(), |i: int| Some(s[0].values.null_at(i))),
        ),
        IRBooleanFunction::IsNotNull => is_column(
            outcome,
            s[0].name,
            Seq::new(s[0].values.len(), |i: int| Some(!s[0].values.null_at(i))),
        ),
        IRBooleanFunction::IsInBloomFilter { bitset } => if bitset@.len() == 0 || bitset@.len() % 32
            != 0 {
            outcome == Err::<Column, _>(
                BooleanError::MalformedBitset { len: bitset@.len() as usize },
            )
        } else {
            match s[0].values {
                ColumnValues::UInt64(v) => is_column(outcome, s[0].name, probed(bitset@, v@)),
                _ => outcome == Err::<Column, _>(BooleanError::ExpectedUInt64),
            }
        },
        IRBooleanFunction::AllHorizontal => combines(false, s, outcome),
        IRBooleanFunction::AnyHorizontal => combines(true, s, outcome),
        _ => false,
    }
}

/// The outcome of combining columns row by row.
pub open spec fn combines(
    disjunction: bool,
    s: Seq<Column>,
    outcome: Result<Column, BooleanError>,
) -> bool {
    if forall|i: int| 0 <= i < s.len() ==> (#[trigger] s[i]).values.booleans() is Some {
        is_column(outcome, s[0].name, horizontal(disjunction, s))
    } else {
        outcome == Err::<Column, _>(BooleanError::InvalidCast)
    }
}

/// Probing never drops a match: a value that the filter accepts is told to be in
/// it, wherever it stands in the column, and a null is not.
pub proof fn law_probe_keeps_every_match(bitset: Seq<u8>, values: Seq<Option<u64>>, i: int)
    requires
        0 <= i < values.len(),
    ensures
        values[i] matches Some(v) ==> (accepts(bitset, v) ==> probed(bitset, values)[i] == Some(
            true,
        )),
        values[i] is None ==> probed(bitset, values)[i] == Some(false),
        probed(bitset, values)[i] is Some,
{
}

proof fn lemma_combine(disjunction: bool, a: Option<bool>, b: Option<bool>, c: Option<bool>)
    ensures
        combine(disjunction, combine(disjunction, a, b), c) == combine(
            disjunction,
            a,
            combine(disjunction, b, c),
        ),
        combine(disjunction, a, Some(!disjunction)) == a,
        combine(disjunction, a, b) == combine(disjunction, b, a),
{
}

/// The columns can be combined in groups, and the groups with each other: the
/// work can be handed out without changing what comes of it.
pub proof fn law_horizontal_can_be_split(
    disjunction: bool,
    first: Seq<Column>,
    second: Seq<Column>,
    n: nat,
)
    requires
        lengths_agree(first, n),
        lengths_agree(second, n),
        forall|i: int| 0 <= i < first.len() ==> (#[trigger] first[i]).values.booleans() is Some,
        forall|i: int| 0 <= i < second.len() ==> (#[trigger] second[i]).values.booleans() is Some,
    ensures
        horizontal(disjunction, first + second) == combine_rows(
            disjunction,
            horizontal(disjunction, first),
            horizontal(disjunction, second),
        ),
    decreases second.len(),
{
    let a = horizontal(disjunction, first);
    lemma_horizontal_len(disjunction, first, n);
    if second.len() == 0 {
        assert(first + second =~= first);
        let neutral = horizontal(disjunction, second);
        assert forall|i: int| 0 <= i < a.len() implies #[trigger] combine_rows(
            disjunction,
            a,
            neutral,
        )[i] == a[i] by {
            lemma_combine(disjunction, a[i], None, None);
        }
        assert(combine_rows(disjunction, a, neutral) =~= a);
    } else {
        let rest = second.drop_last();
        let last = second[second.len() - 1].values.booleans()->0;
        assert(second[second.len() - 1].values.booleans() is Some);
        assert(last.len() == second[second.len() - 1].values.len());
        assert forall|i: int| 0 <= i < rest.len() implies (
        #[trigger] rest[i]).values.booleans() is Some && (rest[i].values.len() == n
            || rest[i].values.len() == 1) by {
            assert(second[i].values.booleans() is Some);
        }
        law_horizontal_can_be_split(disjunction, first, rest, n);
        lemma_horizontal_len(disjunction, rest, n);
        assert((first + second).drop_last() =~= first + rest);
        let b = horizontal(disjunction, rest);
        let left = combine_rows(disjunction, combine_rows(disjunction, a, b), last);
        let right = combine_rows(disjunction, a, combine_rows(disjunction, b, last));
        assert(left.len() == right.len());
        assert forall|i: int| 0 <= i < left.len() implies #[trigger] left[i] == right[i] by {
            lemma_combine(
                disjunction,
                broadcast_at(a, i),
                broadcast_at(b, i),
                broadcast_at(last, i),
            );
        }
        assert(left =~= right);
    }
}

} // verus!
