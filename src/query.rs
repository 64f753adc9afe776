//! Validation of a query: target selection, range order, and the interval.
use vstd::prelude::*;
use crate::bucket::{bucket_count, can_bucket};
use crate::time::{Instant, Range, MAX_EPOCH_SECS};

verus! {

/// The metrics that a query can name.
#[derive(Clone, Copy, Debug, PartialEq, Eq, Structural)]
pub enum Metric {
    BlogHits,
    Sites,
    OutboundData,
}

/// The target string that names a metric.
pub open spec fn metric_name(m: Metric) -> Seq<char> {
    match m {
        Metric::BlogHits => "blog_hits"@,
        Metric::Sites => "sites"@,
        Metric::OutboundData => "outbound_data"@,
    }
}

/// Different metrics have different target strings.
pub proof fn lemma_metric_names_distinct()
    ensures
        forall|a: Metric, b: Metric| #[trigger] metric_name(a) == #[trigger] metric_name(b) ==> a == b,
{
    reveal_strlit("blog_hits");
    reveal_strlit("sites");
    reveal_strlit("outbound_data");
    assert("blog_hits"@.len() == 9);
    assert("sites"@.len() == 5);
    assert("outbound_data"@.len() == 13);
}

/// The metric's series are bucketed over the range.
pub open spec fn is_series(m: Metric) -> bool {
    m != Metric::BlogHits
}

/// Why a query failed.
#[derive(Clone, Debug, PartialEq, Eq)]
pub enum QueryError {
    /// The query named this many targets instead of exactly one.
    InvalidTargetCount(usize),
    /// The start of the range lies after its end.
    InvalidRange(Instant, Instant),
    /// The target names no known metric.
    UnknownTarget(String),
    /// The range cannot be bucketed: it starts before the epoch, ends past
    /// what `u64` milliseconds hold, or needs more buckets than memory holds.
    UnsupportedRange(Instant, Instant),
    /// Storage at the given location could not be opened; the cause follows.
    ConnectionFailure(String, String),
    /// The storage query for the named data failed; the cause follows.
    DataAccessFailure(String, String),
}

/// A validated query: the metric to resolve, its range, and the interval in
/// whole seconds.
#[derive(Clone, Copy, Debug, PartialEq, Eq)]
pub struct QueryPlan {
    pub metric: Metric,
    pub range: Range,
    pub interval: u64,
}

impl QueryPlan {
    /// What a resolver may rely on.
    pub open spec fn wf(self) -> bool {
        &&& self.interval >= 1
        &&& self.range.ordered()
        &&& is_series(self.metric) ==> can_bucket(self.range, self.interval)
    }
}

/// The interval in seconds that a requested interval in milliseconds comes
/// to: `max(floor(ms / 1000), 1)`.
pub open spec fn normalized_secs(interval_ms: int) -> int {
    if interval_ms >= 1000 {
        interval_ms / 1000
    } else {
        1
    }
}

/// Clamps a requested interval in milliseconds to whole seconds, at least one:
/// a zero, negative or sub-second request becomes one second.
pub fn normalize_interval(interval_ms: i64) -> (r: u64)
    ensures
        r == normalized_secs(interval_ms as int),
        r >= 1,
        interval_ms < 1000 ==> r == 1,
{
    if interval_ms >= 1000 {
        (interval_ms / 1000) as u64
    } else {
        1
    }
}

/// The target string of a metric.
pub fn metric_target(m: Metric) -> (r: String)
    ensures
        r@ == metric_name(m),
{
    match m {
        Metric::BlogHits => "blog_hits".to_owned(),
        Metric::Sites => "sites".to_owned(),
        Metric::OutboundData => "outbound_data".to_owned(),
    }
}

/// The metric that a target string names, if any.
pub fn parse_target(target: &String) -> (r: Option<Metric>)
    ensures
        match r {
            Some(m) => target@ == metric_name(m),
            None => forall|m: Metric| target@ != #[trigger] metric_name(m),
        },
{
    if *target == metric_target(Metric::BlogHits) {
        Some(Metric::BlogHits)
    } else if *target == metric_target(Metric::Sites) {
        Some(Metric::Sites)
    } else if *target == metric_target(Metric::OutboundData) {
        Some(Metric::OutboundData)
    } else {
        None
    }
}

/// The targets that a search offers, in this order.
pub fn search() -> (r: Vec<String>)
    ensures
        r@.len() == 3,
        r@[0]@ == metric_name(Metric::BlogHits),
        r@[1]@ == metric_name(Metric::Sites),
        r@[2]@ == metric_name(Metric::OutboundData),
{
    let mut v: Vec<String> = Vec::new();
    v.push(metric_target(Metric::BlogHits));
    v.push(metric_target(Metric::Sites));
    v.push(metric_target(Metric::OutboundData));
    v
}

/// Whether a range can be bucketed at the given interval.
pub fn range_can_bucket(range: &Range, interval: u64) -> (r: bool)
    requires
        interval >= 1,
        range.ordered(),
    ensures
        r == can_bucket(*range, interval),
{
    if range.from.secs < 0 || range.to.secs > MAX_EPOCH_SECS {
        return false;
    }
    let n: u64 = ((range.to.secs - range.from.secs) as u64) / interval + 1;
    assert(n == bucket_count(range.from_secs(), range.to_secs(), interval as int));
    n <= usize::MAX as u64
}

/// Validates a query: exactly one target, a range whose start does not lie
/// after its end, and a known target, checked in this order. A series metric
/// also needs a range that can be bucketed at the normalized interval.
pub fn plan_query(targets: &Vec<String>, range: &Range, interval_ms: i64) -> (r: Result<QueryPlan, QueryError>)
    ensures
        targets@.len() != 1 ==> r == Err::<QueryPlan, QueryError>(QueryError::InvalidTargetCount(targets.len())),
        targets@.len() == 1 && !range.ordered() ==> r == Err::<QueryPlan, QueryError>(QueryError::InvalidRange(range.from, range.to)),
        targets@.len() == 1 && range.ordered() && (forall|m: Metric| targets@[0]@ != #[trigger] metric_name(m))
            ==> (r matches Err(QueryError::UnknownTarget(t)) && t@ == targets@[0]@),
        r matches Ok(plan) ==> {
            &&& targets@.len() == 1
            &&& metric_name(plan.metric) == targets@[0]@
            &&& plan.range == *range
            &&& plan.interval == normalized_secs(interval_ms as int)
            &&& plan.wf()
        },
        targets@.len() == 1 && range.ordered() && (exists|m: Metric| targets@[0]@ == #[trigger] metric_name(m))
            ==> (r is Ok || r == Err::<QueryPlan, QueryError>(QueryError::UnsupportedRange(range.from, range.to))),
        r == Err::<QueryPlan, QueryError>(QueryError::UnsupportedRange(range.from, range.to)) <==> {
            &&& targets@.len() == 1
            &&& range.ordered()
            &&& exists|m: Metric| targets@[0]@ == metric_name(m) && is_series(m)
            &&& !can_bucket(*range, normalized_secs(interval_ms as int) as u64)
        },
{
    if targets.len() != 1 {
        return Err(QueryError::InvalidTargetCount(targets.len()));
    }
    if range.from.is_after(&range.to) {
        return Err(QueryError::InvalidRange(range.from, range.to));
    }
    let interval = normalize_interval(interval_ms);
    let metric = match parse_target(&targets[0]) {
        Some(m) => m,
        None => {
            return Err(QueryError::UnknownTarget(targets[0].clone()));
        },
    };
    proof {
        lemma_metric_names_distinct();
        assert(metric_name(metric) == targets@[0]@);
    }
    if metric != Metric::BlogHits && !range_can_bucket(range, interval) {
        return Err(QueryError::UnsupportedRange(range.from, range.to));
    }
    Ok(QueryPlan { metric, range: *range, interval })
}

/// What a metric's storage query fetches, as failures name it.
pub open spec fn data_label(m: Metric) -> Seq<char> {
    match m {
        Metric::BlogHits => "blog posts"@,
        Metric::Sites => "sites"@,
        Metric::OutboundData => "outbound data"@,
    }
}

/// The failure of a metric's storage query, with its cause.
pub fn data_access_failure(m: Metric, cause: String) -> (r: QueryError)
    ensures
        r matches QueryError::DataAccessFailure(what, c) && what@ == data_label(m) && c == cause,
{
    let what = match m {
        Metric::BlogHits => "blog posts".to_owned(),
        Metric::Sites => "sites".to_owned(),
        Metric::OutboundData => "outbound data".to_owned(),
    };
    QueryError::DataAccessFailure(what, cause)
}

} // verus!
