//! The bucketing engine: rebuilds a dense, zero-filled series at a fixed
//! interval from sparse, unordered points.
use vstd::prelude::*;
use vstd::assert_seqs_equal;
use crate::time::Range;

verus! {

/// A sample as storage returns it: a value at an epoch time in milliseconds.
#[derive(Clone, Copy, Debug, PartialEq, Eq)]
pub struct SparsePoint {
    pub value: u64,
    pub timestamp_ms: u64,
}

/// One bucket of a dense series: its value and its start in epoch milliseconds.
#[derive(Clone, Copy, Debug, PartialEq, Eq)]
pub struct DensePoint {
    pub value: u64,
    pub timestamp_ms: u64,
}

/// Number of buckets that cover `[from_s, to_s]` at `s` seconds each.
pub open spec fn bucket_count(from_s: int, to_s: int, s: int) -> int {
    (to_s - from_s) / s + 1
}

/// Start of bucket `i`, in milliseconds.
pub open spec fn bucket_time_ms(from_s: int, s: int, i: int) -> int {
    from_s * 1000 + i * s * 1000
}

/// Index of the bucket that a point falls into, its time truncated to seconds.
pub open spec fn point_index(from_s: int, s: int, p: SparsePoint) -> int {
    (p.timestamp_ms / 1000 - from_s) / s
}

/// The point lies at or after the start and falls into bucket `i`.
pub open spec fn lands_in(from_s: int, s: int, p: SparsePoint, i: int) -> bool {
    p.timestamp_ms / 1000 >= from_s && point_index(from_s, s, p) == i
}

/// Value of bucket `i` after writing `pts` in order: the last point that
/// lands in it wins, and a bucket that no point lands in holds 0.
pub open spec fn slot_value(from_s: int, s: int, pts: Seq<SparsePoint>, i: int) -> u64
    decreases pts.len(),
{
    if pts.len() == 0 {
        0
    } else if lands_in(from_s, s, pts.last(), i) {
        pts.last().value
    } else {
        slot_value(from_s, s, pts.drop_last(), i)
    }
}

/// The dense series over `[from_s, to_s]` at `s` seconds per bucket.
pub open spec fn buckets(from_s: int, to_s: int, s: int, pts: Seq<SparsePoint>) -> Seq<DensePoint> {
    Seq::new(
        bucket_count(from_s, to_s, s) as nat,
        |i: int|
            DensePoint {
                value: slot_value(from_s, s, pts, i),
                timestamp_ms: bucket_time_ms(from_s, s, i) as u64,
            },
    )
}

/// What bucketing needs of its inputs: a step of at least a second, an ordered
/// range whose times fit in milliseconds, and a bucket count that fits in memory.
pub open spec fn can_bucket(range: Range, interval: u64) -> bool {
    &&& interval >= 1
    &&& range.ordered()
    &&& range.representable()
    &&& bucket_count(range.from_secs(), range.to_secs(), interval as int) <= usize::MAX
}

/// Fills the gaps between sparse points with zeroes: one bucket per interval
/// from the start of the range (truncated to seconds) up to its end. A point
/// writes its value into the bucket it falls into, overwriting what an earlier
/// point wrote there; a point before the start or past the last bucket is
/// dropped.
pub fn fill_datapoints(range: &Range, interval: u64, points: &Vec<SparsePoint>) -> (r: Vec<DensePoint>)
    requires
        can_bucket(*range, interval),
    ensures
        r@ == buckets(range.from_secs(), range.to_secs(), interval as int, points@),
{
    let ghost from_s = range.from_secs();
    let ghost to_s = range.to_secs();
    let ghost s = interval as int;
    let start: u64 = range.from.secs as u64;
    let end: u64 = range.to.secs as u64;
    assert(start <= end);
    let n: u64 = (end - start) / interval + 1;
    assert(n == bucket_count(from_s, to_s, s));

    let mut data: Vec<DensePoint> = Vec::new();
    let mut i: u64 = 0;
    while i < n
        invariant
            0 <= i <= n,
            n == bucket_count(from_s, to_s, s),
            start == from_s,
            end == to_s,
            start <= end,
            s == interval,
            interval >= 1,
            end <= crate::time::MAX_EPOCH_SECS,
            data@.len() == i,
            forall|k: int|
                0 <= k < i ==> #[trigger] data@[k] == (DensePoint {
                    value: 0,
                    timestamp_ms: bucket_time_ms(from_s, s, k) as u64,
                }),
        decreases n - i,
    {
        assert(i * interval <= end - start) by (nonlinear_arith)
            requires
                i < n,
                n == (end - start) / interval as int + 1,
                interval >= 1,
                start <= end,
        {
            assert(i <= (end - start) / interval as int);
        }
        let secs: u64 = start + i * interval;
        let ts: u64 = secs * 1000;
        assert(ts == bucket_time_ms(from_s, s, i as int)) by (nonlinear_arith)
            requires
                ts == (start + i * interval) * 1000,
                start == from_s,
                s == interval,
        ;
        data.push(DensePoint { value: 0, timestamp_ms: ts });
        i = i + 1;
    }
    proof {
        assert_seqs_equal!(data@, buckets(from_s, to_s, s, points@.take(0)));
    }

    let mut k: usize = 0;
    while k < points.len()
        invariant
            0 <= k <= points@.len(),
            n == bucket_count(from_s, to_s, s),
            n <= usize::MAX,
            start == from_s,
            s == interval,
            interval >= 1,
            data@ == buckets(from_s, to_s, s, points@.take(k as int)),
        decreases points@.len() - k,
    {
        let p = points[k];
        let psecs: u64 = p.timestamp_ms / 1000;
        let ghost before = data@;
        let ghost pts = points@.take(k + 1);
        assert(pts.drop_last() == points@.take(k as int));
        assert(pts.last() == p);
        if psecs >= start {
            let idx: u64 = (psecs - start) / interval;
            if idx < n {
                let ts: u64 = data[idx as usize].timestamp_ms;
                data.set(idx as usize, DensePoint { value: p.value, timestamp_ms: ts });
                assert(lands_in(from_s, s, p, idx as int));
                assert forall|j: int| 0 <= j < n && j != idx implies !lands_in(from_s, s, p, j) by {}
            } else {
                assert forall|j: int| 0 <= j < n implies !lands_in(from_s, s, p, j) by {}
            }
        }
        proof {
            assert_seqs_equal!(data@, buckets(from_s, to_s, s, pts));
        }
        k = k + 1;
    }
    assert(points@.take(points@.len() as int) == points@);
    data
}

/// Bucket `i` of a bucketable range starts no later than the end of the
/// range, so its time in milliseconds fits in a `u64`.
proof fn lemma_bucket_time_fits(range: Range, interval: u64, i: int)
    requires
        can_bucket(range, interval),
        0 <= i < bucket_count(range.from_secs(), range.to_secs(), interval as int),
    ensures
        range.from_secs() * 1000 <= bucket_time_ms(range.from_secs(), interval as int, i)
            <= range.to_secs() * 1000,
        bucket_time_ms(range.from_secs(), interval as int, i) <= u64::MAX,
{
    let f = range.from_secs();
    let t = range.to_secs();
    let s = interval as int;
    assert(0 <= i * s <= t - f) by (nonlinear_arith)
        requires
            0 <= i < (t - f) / s + 1,
            s >= 1,
            f <= t,
    {
        assert(i <= (t - f) / s);
    }
    assert(bucket_time_ms(f, s, i) == (f + i * s) * 1000) by (nonlinear_arith);
}

/// With no points, bucketing gives `floor((to - from) / s) + 1` buckets, all zero.
pub proof fn lemma_empty_bucket_count(range: Range, interval: u64)
    requires
        can_bucket(range, interval),
    ensures
        buckets(range.from_secs(), range.to_secs(), interval as int, Seq::empty()).len()
            == (range.to_secs() - range.from_secs()) / (interval as int) + 1,
        forall|i: int|
            0 <= i < buckets(range.from_secs(), range.to_secs(), interval as int, Seq::empty()).len()
                ==> #[trigger] buckets(range.from_secs(), range.to_secs(), interval as int, Seq::empty())[i].value == 0,
{
}

/// The first bucket starts at the start of the range, truncated to seconds,
/// whatever the points.
pub proof fn lemma_first_bucket_time(range: Range, interval: u64, pts: Seq<SparsePoint>)
    requires
        can_bucket(range, interval),
    ensures
        buckets(range.from_secs(), range.to_secs(), interval as int, pts).len() >= 1,
        buckets(range.from_secs(), range.to_secs(), interval as int, pts)[0].timestamp_ms
            == range.from_secs() * 1000,
{
    let f = range.from_secs();
    let t = range.to_secs();
    let s = interval as int;
    assert((t - f) / s >= 0) by (nonlinear_arith)
        requires
            f <= t,
            s >= 1,
    ;
    lemma_bucket_time_fits(range, interval, 0);
}

/// Consecutive buckets start exactly `s * 1000` milliseconds apart.
pub proof fn lemma_bucket_spacing(range: Range, interval: u64, pts: Seq<SparsePoint>, i: int)
    requires
        can_bucket(range, interval),
        0 <= i,
        i + 1 < buckets(range.from_secs(), range.to_secs(), interval as int, pts).len(),
    ensures
        buckets(range.from_secs(), range.to_secs(), interval as int, pts)[i + 1].timestamp_ms
            - buckets(range.from_secs(), range.to_secs(), interval as int, pts)[i].timestamp_ms
            == interval * 1000,
{
    let f = range.from_secs();
    let s = interval as int;
    lemma_bucket_time_fits(range, interval, i);
    lemma_bucket_time_fits(range, interval, i + 1);
    assert(bucket_time_ms(f, s, i + 1) - bucket_time_ms(f, s, i) == s * 1000) by (nonlinear_arith);
}

/// A single point inside the range sets exactly one bucket, the one at
/// `floor((t - from) / s)`, to its value; every other bucket stays zero.
pub proof fn lemma_single_point(range: Range, interval: u64, p: SparsePoint)
    requires
        can_bucket(range, interval),
        range.from_secs() <= p.timestamp_ms / 1000 <= range.to_secs(),
    ensures
        ({
            let b = buckets(range.from_secs(), range.to_secs(), interval as int, seq![p]);
            let idx = (p.timestamp_ms / 1000 - range.from_secs()) / (interval as int);
            &&& 0 <= idx < b.len()
            &&& b[idx].value == p.value
            &&& forall|j: int| 0 <= j < b.len() && j != idx ==> #[trigger] b[j].value == 0
        }),
{
    let f = range.from_secs();
    let t = range.to_secs();
    let s = interval as int;
    let d = p.timestamp_ms / 1000 - f;
    assert(0 <= d / s <= (t - f) / s) by (nonlinear_arith)
        requires
            0 <= d <= t - f,
            s >= 1,
    ;
    let pts = seq![p];
    assert(pts.last() == p);
    assert(pts.drop_last() =~= Seq::<SparsePoint>::empty());
    assert forall|j: int| 0 <= j < bucket_count(f, t, s) implies
        #[trigger] slot_value(f, s, pts, j) == (if j == d / s { p.value } else { 0 }) by {
        assert(slot_value(f, s, pts.drop_last(), j) == 0);
    }
}

} // verus!
