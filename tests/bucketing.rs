use chrono::{TimeZone, Utc};
use rrinlog_server::bucket::{fill_datapoints, DensePoint, SparsePoint};
use rrinlog_server::time::{Instant, Range};

fn at(y: i32, mo: u32, d: u32, h: u32, mi: u32, s: u32) -> Instant {
    let t = Utc.with_ymd_and_hms(y, mo, d, h, mi, s).unwrap();
    Instant { secs: t.timestamp(), nanos: t.timestamp_subsec_nanos() }
}

fn hour_range() -> Range {
    Range { from: at(2014, 7, 8, 9, 10, 11), to: at(2014, 7, 8, 10, 10, 21) }
}

#[test]
fn fill_datapoints_empty() {
    let rng = hour_range();
    let actual = fill_datapoints(&rng, 30, &Vec::new());

    // In an hour there are 121 - 30 second intervals in an hour
    assert_eq!(actual.len(), 121);

    // Ensure that the gap is interval is upheld
    assert_eq!(actual[1].timestamp_ms - actual[0].timestamp_ms, 30 * 1000);

    let first_time = Utc.with_ymd_and_hms(2014, 7, 8, 9, 10, 11).unwrap().timestamp() as u64;
    assert_eq!(DensePoint { value: 0, timestamp_ms: first_time * 1000 }, actual[0]);
}

#[test]
fn fill_datapoints_one_filled() {
    let rng = hour_range();
    let fill_time = (Utc.with_ymd_and_hms(2014, 7, 8, 9, 11, 11).unwrap().timestamp() as u64) * 1000;
    let elem = SparsePoint { value: 1, timestamp_ms: fill_time };

    let actual = fill_datapoints(&rng, 30, &vec![elem]);

    // In an hour there are 121 - 30 second intervals in an hour
    assert_eq!(actual.len(), 121);

    // Ensure that the gap is interval is upheld
    assert_eq!(actual[2].timestamp_ms - actual[1].timestamp_ms, 30 * 1000);
    assert_eq!(actual[3].timestamp_ms - actual[2].timestamp_ms, 30 * 1000);

    assert_eq!(DensePoint { value: 1, timestamp_ms: fill_time }, actual[2]);
    assert_eq!(actual[1].value, 0);
    assert_eq!(actual[3].value, 0);
}

#[test]
fn every_gap_is_one_interval() {
    let actual = fill_datapoints(&hour_range(), 30, &Vec::new());
    for w in actual.windows(2) {
        assert_eq!(w[1].timestamp_ms - w[0].timestamp_ms, 30_000);
    }
    assert!(actual.iter().all(|p| p.value == 0));
}

#[test]
fn sub_second_parts_are_truncated() {
    let rng = Range {
        from: Instant { secs: 100, nanos: 900_000_000 },
        to: Instant { secs: 160, nanos: 100_000_000 },
    };
    let actual = fill_datapoints(&rng, 20, &vec![SparsePoint { value: 4, timestamp_ms: 139_999 }]);
    assert_eq!(actual.len(), 4);
    assert_eq!(actual[0], DensePoint { value: 0, timestamp_ms: 100_000 });
    assert_eq!(actual[1], DensePoint { value: 4, timestamp_ms: 120_000 });
    assert_eq!(actual[3], DensePoint { value: 0, timestamp_ms: 160_000 });
}

#[test]
fn equal_ends_give_one_bucket() {
    let rng = Range { from: Instant { secs: 50, nanos: 0 }, to: Instant { secs: 50, nanos: 0 } };
    let actual = fill_datapoints(&rng, 1, &vec![SparsePoint { value: 9, timestamp_ms: 50_500 }]);
    assert_eq!(actual, vec![DensePoint { value: 9, timestamp_ms: 50_000 }]);
}

#[test]
fn last_write_wins_in_a_bucket() {
    let rng = Range { from: Instant { secs: 0, nanos: 0 }, to: Instant { secs: 59, nanos: 0 } };
    let pts = vec![
        SparsePoint { value: 5, timestamp_ms: 31_000 },
        SparsePoint { value: 8, timestamp_ms: 10_000 },
        SparsePoint { value: 2, timestamp_ms: 45_000 },
    ];
    let actual = fill_datapoints(&rng, 30, &pts);
    assert_eq!(actual.len(), 2);
    assert_eq!(actual[0].value, 8);
    assert_eq!(actual[1].value, 2);
}

#[test]
fn points_outside_the_buckets_are_dropped() {
    let rng = Range { from: Instant { secs: 10, nanos: 0 }, to: Instant { secs: 20, nanos: 0 } };
    let pts = vec![
        SparsePoint { value: 5, timestamp_ms: 9_999 },
        SparsePoint { value: 6, timestamp_ms: 40_000 },
    ];
    let actual = fill_datapoints(&rng, 5, &pts);
    assert_eq!(actual.len(), 3);
    assert!(actual.iter().all(|p| p.value == 0));
    assert_eq!(actual[2].timestamp_ms, 20_000);
}
