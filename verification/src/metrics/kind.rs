//! How a metric combines what its reporters report.

use crate::metrics::custom::AggMode;
use vstd::prelude::*;

verus! {

/// The kind of a metric.
pub trait MetricKind: Copy {
    /// How cells of this kind are combined.
    spec fn mode() -> AggMode;

    /// How cells of this kind are combined.
    fn agg() -> (agg: AggMode)
        ensures
            agg == Self::mode(),
    ;

    /// The kind itself.
    fn new() -> Self;
}

/// Combines by summing
#[derive(Default, Clone, Copy, Debug, PartialEq, Eq, Structural)]
pub struct Sum;

/// Combines by taking the highest value
#[derive(Default, Clone, Copy, Debug, PartialEq, Eq, Structural)]
pub struct Max;

/// Combines by taking latest value
#[derive(Default, Clone, Copy, Debug, PartialEq, Eq, Structural)]
pub struct Gauge;

impl MetricKind for Sum {
    open spec fn mode() -> AggMode {
        AggMode::Sum
    }

    fn agg() -> AggMode {
        AggMode::Sum
    }

    fn new() -> (kind: Sum)
        ensures
            kind == Sum,
    {
        Sum
    }
}

impl MetricKind for Max {
    open spec fn mode() -> AggMode {
        AggMode::Max
    }

    fn agg() -> AggMode {
        AggMode::Max
    }

    fn new() -> (kind: Max)
        ensures
            kind == Max,
    {
        Max
    }
}

impl MetricKind for Gauge {
    open spec fn mode() -> AggMode {
        AggMode::Latest
    }

    fn agg() -> AggMode {
        AggMode::Latest
    }

    fn new() -> (kind: Gauge)
        ensures
            kind == Gauge,
    {
        Gauge
    }
}

} // verus!
