use rrinlog_server::bucket::DensePoint;
use rrinlog_server::resolve::{get_outbound, get_sites, OutboundRow, SiteRow, TargetData};
use rrinlog_server::time::{Instant, Range};

fn range() -> Range {
    Range { from: Instant { secs: 1000, nanos: 0 }, to: Instant { secs: 1090, nanos: 0 } }
}

fn row(host: &str, epoch_ms: u64, views: u64) -> SiteRow {
    SiteRow { host: host.to_string(), epoch_ms, views }
}

fn series(t: &TargetData) -> (String, Vec<DensePoint>) {
    match t {
        TargetData::Series(s) => (s.target.clone(), s.datapoints.clone()),
        TargetData::Table(_) => panic!("expected a series"),
    }
}

#[test]
fn one_series_per_host() {
    let rows = vec![
        row("b.com", 1_000_000, 1),
        row("a.com", 1_030_000, 2),
        row("b.com", 1_060_000, 3),
        row("c.com", 1_090_000, 4),
        row("a.com", 1_000_000, 5),
    ];
    let r = get_sites(&range(), 30, &rows);
    assert_eq!(r.0.len(), 3);
    let (n0, p0) = series(&r.0[0]);
    let (n1, p1) = series(&r.0[1]);
    let (n2, p2) = series(&r.0[2]);
    assert_eq!((n0.as_str(), n1.as_str(), n2.as_str()), ("b.com", "a.com", "c.com"));
    let values = |p: &Vec<DensePoint>| p.iter().map(|d| d.value).collect::<Vec<u64>>();
    assert_eq!(values(&p0), vec![1, 0, 3, 0]);
    assert_eq!(values(&p1), vec![5, 2, 0, 0]);
    assert_eq!(values(&p2), vec![0, 0, 0, 4]);
    for p in [&p0, &p1, &p2] {
        let times: Vec<u64> = p.iter().map(|d| d.timestamp_ms).collect();
        assert_eq!(times, vec![1_000_000, 1_030_000, 1_060_000, 1_090_000]);
    }
}

#[test]
fn latest_sample_of_a_host_wins_its_bucket() {
    // Both samples fall into the first bucket; they arrive newest first, and
    // sorting by time makes the newer one the last written.
    let rows = vec![row("a.com", 1_005_000, 7), row("a.com", 1_001_000, 3)];
    let r = get_sites(&range(), 30, &rows);
    let (_, p) = series(&r.0[0]);
    assert_eq!(p[0].value, 7);
}

#[test]
fn no_rows_no_series() {
    let r = get_sites(&range(), 30, &Vec::new());
    assert!(r.0.is_empty());
}

#[test]
fn outbound_is_one_named_series() {
    let rows = vec![
        OutboundRow { epoch_ms: 1_031_000, bytes: 512 },
        OutboundRow { epoch_ms: 1_089_999, bytes: 64 },
    ];
    let r = get_outbound(&range(), 30, &rows);
    assert_eq!(r.0.len(), 1);
    let (name, p) = series(&r.0[0]);
    assert_eq!(name, "outbound_data");
    assert_eq!(p.iter().map(|d| d.value).collect::<Vec<u64>>(), vec![0, 512, 64, 0]);
}
