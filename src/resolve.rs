//! Metric resolvers: they turn the rows that storage returns into series or a
//! table, and package them as the response to a query.
use vstd::prelude::*;
use crate::bucket::{buckets, can_bucket, fill_datapoints, DensePoint, SparsePoint};
use crate::query::{metric_name, Metric, QueryPlan};
use crate::time::Range;

verus! {

/// A row of per-host page views at an epoch time in milliseconds.
#[derive(Clone, Debug, PartialEq, Eq)]
pub struct SiteRow {
    pub host: String,
    pub epoch_ms: u64,
    pub views: u64,
}

/// A row of bytes sent at an epoch time in milliseconds.
#[derive(Clone, Copy, Debug, PartialEq, Eq)]
pub struct OutboundRow {
    pub epoch_ms: u64,
    pub bytes: u64,
}

/// A row of views of one article, already aggregated over the range.
#[derive(Clone, Debug, PartialEq, Eq)]
pub struct BlogRow {
    pub referer: String,
    pub views: u64,
}

/// The rows that storage returned for one metric.
#[derive(Clone, Debug, PartialEq, Eq)]
pub enum MetricRows {
    BlogPosts(Vec<BlogRow>),
    Sites(Vec<SiteRow>),
    Outbound(Vec<OutboundRow>),
}

/// A named dense series.
#[derive(Clone, Debug, PartialEq, Eq)]
pub struct Series {
    pub target: String,
    pub datapoints: Vec<DensePoint>,
}

/// A column of a table: its title and the type of its values.
#[derive(Clone, Debug, PartialEq, Eq)]
pub struct Column {
    pub text: String,
    pub col_type: String,
}

/// One value of a table row.
#[derive(Clone, Debug, PartialEq, Eq)]
pub enum Cell {
    Text(String),
    Number(u64),
}

/// A table: typed columns, and rows whose values follow the columns' order.
#[derive(Clone, Debug, PartialEq, Eq)]
pub struct Table {
    pub table_type: String,
    pub columns: Vec<Column>,
    pub rows: Vec<Vec<Cell>>,
}

/// One entry of a response.
#[derive(Clone, Debug, PartialEq, Eq)]
pub enum TargetData {
    Series(Series),
    Table(Table),
}

/// The response to a query.
#[derive(Clone, Debug, PartialEq, Eq)]
pub struct QueryResponse(pub Vec<TargetData>);

/// The entry is a series with this name and these points.
pub open spec fn is_series_of(t: TargetData, name: Seq<char>, pts: Seq<DensePoint>) -> bool {
    match t {
        TargetData::Series(s) => s.target@ == name && s.datapoints@ == pts,
        TargetData::Table(_) => false,
    }
}

/// The points are in ascending time.
pub open spec fn sorted_by_time(pts: Seq<SparsePoint>) -> bool {
    forall|i: int, j: int| 0 <= i <= j < pts.len() ==> pts[i].timestamp_ms <= pts[j].timestamp_ms
}

/// The dense series over the plan's range and interval.
pub open spec fn bucketed(range: Range, interval: u64, pts: Seq<SparsePoint>) -> Seq<DensePoint> {
    buckets(range.from_secs(), range.to_secs(), interval as int, pts)
}

/// Relies on `slice::sort_unstable_by_key`: it reorders the points so that
/// their times ascend, keeping the same points.
#[verifier::external_body]
fn sort_by_time(v: &mut Vec<SparsePoint>)
    ensures
        final(v)@.to_multiset() == old(v)@.to_multiset(),
        sorted_by_time(final(v)@),
{
    v.sort_unstable_by_key(|p| p.timestamp_ms);
}

// ---------------------------------------------------------------- outbound

/// The sample that an outbound row stands for.
pub open spec fn outbound_point(r: OutboundRow) -> SparsePoint {
    SparsePoint { value: r.bytes, timestamp_ms: r.epoch_ms }
}

/// A single series named `outbound_data`: all rows, bucketed.
pub open spec fn is_outbound_response(r: QueryResponse, range: Range, interval: u64, rows: Seq<OutboundRow>) -> bool {
    &&& r.0@.len() == 1
    &&& is_series_of(
        r.0@[0],
        metric_name(Metric::OutboundData),
        bucketed(range, interval, rows.map_values(|x: OutboundRow| outbound_point(x))),
    )
}

/// One series named `outbound_data`: all rows bucketed over the range.
pub fn get_outbound(range: &Range, interval: u64, rows: &Vec<OutboundRow>) -> (r: QueryResponse)
    requires
        can_bucket(*range, interval),
    ensures
        is_outbound_response(r, *range, interval, rows@),
{
    let mut p: Vec<SparsePoint> = Vec::new();
    let mut k: usize = 0;
    while k < rows.len()
        invariant
            0 <= k <= rows@.len(),
            p@ == rows@.take(k as int).map_values(|x: OutboundRow| outbound_point(x)),
        decreases rows@.len() - k,
    {
        let x = rows[k];
        p.push(SparsePoint { value: x.bytes, timestamp_ms: x.epoch_ms });
        k = k + 1;
        proof {
            assert(p@ =~= rows@.take(k as int).map_values(|x: OutboundRow| outbound_point(x)));
        }
    }
    proof {
        assert(rows@.take(rows@.len() as int) == rows@);
    }
    let datapoints = fill_datapoints(range, interval, &p);
    let target = crate::query::metric_target(Metric::OutboundData);
    let mut v: Vec<TargetData> = Vec::new();
    v.push(TargetData::Series(Series { target, datapoints }));
    QueryResponse(v)
}

// ------------------------------------------------------------- blog posts

/// The table's row for a blog row: the article, then its view count.
pub open spec fn blog_cells(r: BlogRow) -> Seq<Cell> {
    seq![Cell::Text(r.referer), Cell::Number(r.views)]
}

/// The blog table: an `article` column of strings, a `count` column of
/// numbers, and the given rows as they are.
pub fn create_blog_table(rows: Vec<Vec<Cell>>) -> (r: Table)
    ensures
        r.table_type@ == "table"@,
        r.columns@.len() == 2,
        r.columns@[0].text@ == "article"@,
        r.columns@[0].col_type@ == "string"@,
        r.columns@[1].text@ == "count"@,
        r.columns@[1].col_type@ == "number"@,
        r.rows == rows,
{
    let mut columns: Vec<Column> = Vec::new();
    columns.push(Column { text: "article".to_owned(), col_type: "string".to_owned() });
    columns.push(Column { text: "count".to_owned(), col_type: "number".to_owned() });
    Table { table_type: "table".to_owned(), columns, rows }
}

/// A single blog table with one row per blog row, in order.
pub open spec fn is_blog_response(r: QueryResponse, rows: Seq<BlogRow>) -> bool {
    &&& r.0@.len() == 1
    &&& r.0@[0] matches TargetData::Table(t) && {
        &&& t.table_type@ == "table"@
        &&& t.columns@.len() == 2
        &&& t.columns@[0].text@ == "article"@
        &&& t.columns@[0].col_type@ == "string"@
        &&& t.columns@[1].text@ == "count"@
        &&& t.columns@[1].col_type@ == "number"@
        &&& t.rows@.len() == rows.len()
        &&& forall|i: int| 0 <= i < rows.len() ==> #[trigger] t.rows@[i]@ == blog_cells(rows[i])
    }
}

/// A single table with one row per blog row, in the order received.
pub fn get_blog_posts(rows: &Vec<BlogRow>) -> (r: QueryResponse)
    ensures
        is_blog_response(r, rows@),
{
    let mut cells: Vec<Vec<Cell>> = Vec::new();
    let mut k: usize = 0;
    while k < rows.len()
        invariant
            0 <= k <= rows@.len(),
            cells@.len() == k,
            forall|i: int| 0 <= i < k ==> #[trigger] cells@[i]@ == blog_cells(rows@[i]),
        decreases rows@.len() - k,
    {
        let x = &rows[k];
        let mut row: Vec<Cell> = Vec::new();
        row.push(Cell::Text(x.referer.clone()));
        row.push(Cell::Number(x.views));
        proof {
            assert(row@ =~= blog_cells(rows@[k as int]));
        }
        cells.push(row);
        k = k + 1;
    }
    let mut v: Vec<TargetData> = Vec::new();
    v.push(TargetData::Table(create_blog_table(cells)));
    QueryResponse(v)
}

// ------------------------------------------------------------------ sites

/// The sample that a site row stands for.
pub open spec fn site_point(r: SiteRow) -> SparsePoint {
    SparsePoint { value: r.views, timestamp_ms: r.epoch_ms }
}

/// The hosts of the rows, each once, in order of first appearance.
pub open spec fn distinct_hosts(rows: Seq<SiteRow>) -> Seq<Seq<char>>
    decreases rows.len(),
{
    if rows.len() == 0 {
        Seq::empty()
    } else {
        let d = distinct_hosts(rows.drop_last());
        if d.contains(rows.last().host@) {
            d
        } else {
            d.push(rows.last().host@)
        }
    }
}

/// The samples of the rows of one host, in row order.
pub open spec fn host_points(rows: Seq<SiteRow>, host: Seq<char>) -> Seq<SparsePoint>
    decreases rows.len(),
{
    if rows.len() == 0 {
        Seq::empty()
    } else {
        let p = host_points(rows.drop_last(), host);
        if rows.last().host@ == host {
            p.push(site_point(rows.last()))
        } else {
            p
        }
    }
}

/// The entry is the series of `host`: its samples, sorted by time, bucketed
/// over the range. Samples with equal times may come in either order.
pub open spec fn is_host_series(
    t: TargetData,
    range: Range,
    interval: u64,
    rows: Seq<SiteRow>,
    host: Seq<char>,
) -> bool {
    exists|p: Seq<SparsePoint>|
        #[trigger] is_series_of(t, host, bucketed(range, interval, p))
            && p.to_multiset() == host_points(rows, host).to_multiset()
            && sorted_by_time(p)
}

/// A host occurs among the rows exactly when it is listed once among the
/// distinct hosts: so the distinct hosts count the hosts of the rows.
pub proof fn lemma_distinct_hosts(rows: Seq<SiteRow>)
    ensures
        distinct_hosts(rows).no_duplicates(),
        forall|h: Seq<char>|
            distinct_hosts(rows).contains(h) <==> exists|i: int| 0 <= i < rows.len() && #[trigger] rows[i].host@ == h,
        distinct_hosts(rows).len() == rows.map_values(|r: SiteRow| r.host@).to_set().len(),
    decreases rows.len(),
{
    if rows.len() > 0 {
        let init = rows.drop_last();
        let d = distinct_hosts(init);
        let x = rows.last().host@;
        lemma_distinct_hosts(init);
        assert forall|i: int| 0 <= i < init.len() implies #[trigger] init[i] == rows[i] by {}
        assert forall|h: Seq<char>|
            distinct_hosts(rows).contains(h) <==> exists|i: int| 0 <= i < rows.len() && #[trigger] rows[i].host@ == h by {
            if distinct_hosts(rows).contains(h) {
                if h == x {
                    assert(rows[rows.len() - 1].host@ == h);
                } else {
                    let m = choose|m: int| 0 <= m < distinct_hosts(rows).len() && distinct_hosts(rows)[m] == h;
                    if !d.contains(x) {
                        assert(m < d.len());
                        assert(d[m] == h);
                    }
                    assert(d.contains(h));
                    let i = choose|i: int| 0 <= i < init.len() && #[trigger] init[i].host@ == h;
                    assert(rows[i].host@ == h);
                }
            }
            if exists|i: int| 0 <= i < rows.len() && #[trigger] rows[i].host@ == h {
                let i = choose|i: int| 0 <= i < rows.len() && #[trigger] rows[i].host@ == h;
                if i < init.len() {
                    assert(init[i].host@ == h);
                    assert(d.contains(h));
                    let m = choose|m: int| 0 <= m < d.len() && d[m] == h;
                    if !d.contains(x) {
                        assert(d.push(x)[m] == h);
                    }
                } else {
                    assert(h == x);
                    if !d.contains(x) {
                        assert(d.push(x)[d.len() as int] == h);
                    }
                }
            }
        }
        if !d.contains(x) {
            assert forall|a: int, b: int|
                0 <= a < b < d.push(x).len() implies d.push(x)[a] != d.push(x)[b] by {
                if b == d.len() {
                    assert(d.push(x)[a] == d[a]);
                }
            }
        }
    }
    let hosts = rows.map_values(|r: SiteRow| r.host@);
    assert forall|h: Seq<char>| #[trigger] hosts.to_set().contains(h) <==> distinct_hosts(rows).to_set().contains(h) by {
        if hosts.contains(h) {
            let i = choose|i: int| 0 <= i < hosts.len() && hosts[i] == h;
            assert(rows[i].host@ == h);
        }
        if exists|i: int| 0 <= i < rows.len() && #[trigger] rows[i].host@ == h {
            let i = choose|i: int| 0 <= i < rows.len() && #[trigger] rows[i].host@ == h;
            assert(hosts[i] == h);
        }
    }
    assert(hosts.to_set() =~= distinct_hosts(rows).to_set());
    distinct_hosts(rows).unique_seq_to_set();
}

/// The hosts of the rows, each once, in order of first appearance.
fn hosts_of(rows: &Vec<SiteRow>) -> (r: Vec<String>)
    ensures
        r@.len() == distinct_hosts(rows@).len(),
        forall|j: int| 0 <= j < r@.len() ==> #[trigger] r@[j]@ == distinct_hosts(rows@)[j],
{
    let mut hosts: Vec<String> = Vec::new();
    let mut k: usize = 0;
    while k < rows.len()
        invariant
            0 <= k <= rows@.len(),
            hosts@.len() == distinct_hosts(rows@.take(k as int)).len(),
            forall|j: int| 0 <= j < hosts@.len() ==> #[trigger] hosts@[j]@ == distinct_hosts(rows@.take(k as int))[j],
        decreases rows@.len() - k,
    {
        let ghost d = distinct_hosts(rows@.take(k as int));
        let x = &rows[k];
        let mut found = false;
        let mut j: usize = 0;
        while j < hosts.len()
            invariant
                0 <= j <= hosts@.len(),
                hosts@.len() == d.len(),
                forall|m: int| 0 <= m < hosts@.len() ==> #[trigger] hosts@[m]@ == d[m],
                found == exists|m: int| 0 <= m < j && #[trigger] d[m] == x.host@,
            decreases hosts@.len() - j,
        {
            if hosts[j] == x.host {
                found = true;
            }
            j = j + 1;
        }
        let ghost next = rows@.take(k + 1);
        assert(next.drop_last() == rows@.take(k as int));
        assert(next.last() == *x);
        assert(found == d.contains(x.host@));
        if !found {
            hosts.push(x.host.clone());
        }
        k = k + 1;
    }
    assert(rows@.take(rows@.len() as int) == rows@);
    hosts
}

/// The samples of the rows of one host, in row order.
fn points_of(rows: &Vec<SiteRow>, host: &String) -> (r: Vec<SparsePoint>)
    ensures
        r@ == host_points(rows@, host@),
{
    let mut p: Vec<SparsePoint> = Vec::new();
    let mut k: usize = 0;
    while k < rows.len()
        invariant
            0 <= k <= rows@.len(),
            p@ == host_points(rows@.take(k as int), host@),
        decreases rows@.len() - k,
    {
        let x = &rows[k];
        let ghost next = rows@.take(k + 1);
        assert(next.drop_last() == rows@.take(k as int));
        assert(next.last() == *x);
        if x.host == *host {
            p.push(SparsePoint { value: x.views, timestamp_ms: x.epoch_ms });
        }
        k = k + 1;
    }
    assert(rows@.take(rows@.len() as int) == rows@);
    p
}

/// One series per distinct host, in order of first appearance.
pub open spec fn is_sites_response(r: QueryResponse, range: Range, interval: u64, rows: Seq<SiteRow>) -> bool {
    &&& r.0@.len() == distinct_hosts(rows).len()
    &&& forall|j: int|
        0 <= j < r.0@.len() ==> is_host_series(#[trigger] r.0@[j], range, interval, rows, distinct_hosts(rows)[j])
}

/// One series per distinct host, in order of first appearance: the host's
/// samples, sorted by time, bucketed over the range.
pub fn get_sites(range: &Range, interval: u64, rows: &Vec<SiteRow>) -> (r: QueryResponse)
    requires
        can_bucket(*range, interval),
    ensures
        is_sites_response(r, *range, interval, rows@),
{
    let hosts = hosts_of(rows);
    let mut v: Vec<TargetData> = Vec::new();
    let mut j: usize = 0;
    while j < hosts.len()
        invariant
            can_bucket(*range, interval),
            0 <= j <= hosts@.len(),
            hosts@.len() == distinct_hosts(rows@).len(),
            forall|m: int| 0 <= m < hosts@.len() ==> #[trigger] hosts@[m]@ == distinct_hosts(rows@)[m],
            v@.len() == j,
            forall|m: int|
                0 <= m < j ==> is_host_series(#[trigger] v@[m], *range, interval, rows@, distinct_hosts(rows@)[m]),
        decreases hosts@.len() - j,
    {
        let host = &hosts[j];
        let mut pts = points_of(rows, host);
        sort_by_time(&mut pts);
        let datapoints = fill_datapoints(range, interval, &pts);
        let entry = TargetData::Series(Series { target: host.clone(), datapoints });
        assert(is_series_of(entry, distinct_hosts(rows@)[j as int], bucketed(*range, interval, pts@)));
        v.push(entry);
        j = j + 1;
    }
    QueryResponse(v)
}

/// A sites response has exactly one series per distinct host of the rows,
/// each named after its host, no two with the same name, and each bucketed
/// over the same range and interval.
pub proof fn lemma_sites_one_series_per_host(r: QueryResponse, range: Range, interval: u64, rows: Seq<SiteRow>)
    requires
        is_sites_response(r, range, interval, rows),
    ensures
        r.0@.len() == rows.map_values(|x: SiteRow| x.host@).to_set().len(),
        forall|a: int, b: int|
            0 <= a < b < r.0@.len() ==> distinct_hosts(rows)[a] != distinct_hosts(rows)[b],
        forall|j: int|
            0 <= j < r.0@.len() ==> is_host_series(#[trigger] r.0@[j], range, interval, rows, distinct_hosts(rows)[j]),
{
    lemma_distinct_hosts(rows);
}

// --------------------------------------------------------------- dispatch

/// The rows are of the kind that the metric's storage query returns.
pub open spec fn rows_for(m: Metric, rows: MetricRows) -> bool {
    match rows {
        MetricRows::BlogPosts(_) => m == Metric::BlogHits,
        MetricRows::Sites(_) => m == Metric::Sites,
        MetricRows::Outbound(_) => m == Metric::OutboundData,
    }
}

/// Runs the resolver of the plan's metric on the rows that storage returned
/// for it.
pub fn resolve(plan: &QueryPlan, rows: &MetricRows) -> (r: QueryResponse)
    requires
        plan.wf(),
        rows_for(plan.metric, *rows),
    ensures
        match rows {
            MetricRows::BlogPosts(b) => is_blog_response(r, b@),
            MetricRows::Sites(x) => is_sites_response(r, plan.range, plan.interval, x@),
            MetricRows::Outbound(o) => is_outbound_response(r, plan.range, plan.interval, o@),
        },
{
    match rows {
        MetricRows::BlogPosts(b) => get_blog_posts(b),
        MetricRows::Sites(x) => get_sites(&plan.range, plan.interval, x),
        MetricRows::Outbound(o) => get_outbound(&plan.range, plan.interval, o),
    }
}

} // verus!
