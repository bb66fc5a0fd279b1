//! The series and the summary figures drawn from the records of the log.

use vstd::prelude::*;
use crate::record::{models, RecordModel, SpeedTestResult};
use crate::store::{lines_of, loaded, rejected};

verus! {

/// A field of a record that is summed and averaged.
#[derive(Clone, Copy, PartialEq, Eq, Structural, Debug)]
pub enum Metric {
    Download,
    Upload,
    Ping,
}

pub open spec fn metric_of(m: RecordModel, k: Metric) -> u64 {
    match k {
        Metric::Download => m.download_speed,
        Metric::Upload => m.upload_speed,
        Metric::Ping => m.ping,
    }
}

/// The sum of a field over the records.
pub open spec fn total(ms: Seq<RecordModel>, k: Metric) -> nat
    decreases ms.len(),
{
    if ms.len() == 0 {
        0
    } else {
        total(ms.drop_last(), k) + metric_of(ms.last(), k) as nat
    }
}

/// The arithmetic mean of a field, rounded down; zero for no records.
pub open spec fn mean(ms: Seq<RecordModel>, k: Metric) -> nat {
    if ms.len() == 0 {
        0
    } else {
        total(ms, k) / ms.len()
    }
}

/// One point of a series: a time and a value.
pub struct SeriesPoint {
    pub timestamp: String,
    pub value: u64,
}

/// The number of records and the mean of each field, in the units of the
/// records.
pub struct Stats {
    pub count: usize,
    pub avg_download: u64,
    pub avg_upload: u64,
    pub avg_ping: u64,
}

/// The download and upload series, in the order of the records, and the
/// summary figures.
pub struct Summary {
    pub download: Vec<SeriesPoint>,
    pub upload: Vec<SeriesPoint>,
    pub stats: Stats,
}

/// The series of one field holds, in order, each record's time and value.
pub open spec fn is_series(points: Seq<SeriesPoint>, ms: Seq<RecordModel>, k: Metric) -> bool {
    &&& points.len() == ms.len()
    &&& forall|i: int|
        0 <= i < ms.len() ==> (#[trigger] points[i]).timestamp@ == ms[i].timestamp && points[i].value
            == metric_of(ms[i], k)
}

/// What `build` gives for the records `ms`.
pub open spec fn summarizes(s: Summary, ms: Seq<RecordModel>) -> bool {
    &&& is_series(s.download@, ms, Metric::Download)
    &&& is_series(s.upload@, ms, Metric::Upload)
    &&& s.stats.count == ms.len()
    &&& s.stats.avg_download == mean(ms, Metric::Download)
    &&& s.stats.avg_upload == mean(ms, Metric::Upload)
    &&& s.stats.avg_ping == mean(ms, Metric::Ping)
}

/// An empty log loads as no records and no rejected lines, and the summary
/// of no records has a count of zero, zero for each mean and empty series.
pub proof fn lemma_empty_store(s: Summary)
    requires
        summarizes(s, loaded(lines_of(Seq::empty()))),
    ensures
        loaded(lines_of(Seq::empty())) == Seq::<RecordModel>::empty(),
        rejected(lines_of(Seq::empty())).len() == 0,
        s.stats.count == 0,
        s.stats.avg_download == 0,
        s.stats.avg_upload == 0,
        s.stats.avg_ping == 0,
        s.download@.len() == 0,
        s.upload@.len() == 0,
{
    assert(lines_of(Seq::empty()) == Seq::<Seq<char>>::empty());
}

proof fn lemma_total_bound(ms: Seq<RecordModel>, k: Metric)
    ensures
        total(ms, k) <= ms.len() * (u64::MAX as nat),
    decreases ms.len(),
{
    if ms.len() > 0 {
        lemma_total_bound(ms.drop_last(), k);
        assert((ms.len() - 1) * (u64::MAX as nat) + u64::MAX as nat == ms.len() * (u64::MAX as nat))
            by (nonlinear_arith);
    }
}

proof fn lemma_mean_fits(ms: Seq<RecordModel>, k: Metric)
    ensures
        mean(ms, k) <= u64::MAX,
{
    if ms.len() > 0 {
        lemma_total_bound(ms, k);
        let t = total(ms, k);
        let n = ms.len();
        assert(t / n <= u64::MAX) by (nonlinear_arith)
            requires
                t <= n * (u64::MAX as nat),
                n > 0,
        ;
    }
}

fn average(sum: u128, count: usize, Ghost(ms): Ghost<Seq<RecordModel>>, Ghost(k): Ghost<Metric>) -> (r: u64)
    requires
        count == ms.len(),
        sum == total(ms, k),
    ensures
        r == mean(ms, k),
{
    proof {
        lemma_mean_fits(ms, k);
    }
    if count == 0 {
        0
    } else {
        (sum / (count as u128)) as u64
    }
}

/// Draws the series and the summary figures from records in log order.
pub fn build(records: &[SpeedTestResult]) -> (s: Summary)
    ensures
        summarizes(s, models(records@)),
{
    let ghost ms = models(records@);
    let mut download: Vec<SeriesPoint> = Vec::new();
    let mut upload: Vec<SeriesPoint> = Vec::new();
    let mut sum_down: u128 = 0;
    let mut sum_up: u128 = 0;
    let mut sum_ping: u128 = 0;
    let mut i: usize = 0;
    while i < records.len()
        invariant
            i <= records@.len(),
            ms == models(records@),
            is_series(download@, ms.take(i as int), Metric::Download),
            is_series(upload@, ms.take(i as int), Metric::Upload),
            sum_down == total(ms.take(i as int), Metric::Download),
            sum_up == total(ms.take(i as int), Metric::Upload),
            sum_ping == total(ms.take(i as int), Metric::Ping),
        decreases records.len() - i,
    {
        let r = &records[i];
        let ghost next = ms.take(i + 1);
        assert(next.drop_last() =~= ms.take(i as int));
        assert(next.last() == r@);
        proof {
            lemma_total_bound(next, Metric::Download);
            lemma_total_bound(next, Metric::Upload);
            lemma_total_bound(next, Metric::Ping);
            assert(next.len() * (u64::MAX as nat) <= usize::MAX as nat * (u64::MAX as nat))
                by (nonlinear_arith)
                requires
                    next.len() <= usize::MAX,
            ;
        }
        sum_down = sum_down + r.download_speed as u128;
        sum_up = sum_up + r.upload_speed as u128;
        sum_ping = sum_ping + r.ping as u128;
        download.push(SeriesPoint { timestamp: r.timestamp.clone(), value: r.download_speed });
        upload.push(SeriesPoint { timestamp: r.timestamp.clone(), value: r.upload_speed });
        i = i + 1;
    }
    assert(ms.take(records@.len() as int) =~= ms);
    let count = records.len();
    let stats = Stats {
        count,
        avg_download: average(sum_down, count, Ghost(ms), Ghost(Metric::Download)),
        avg_upload: average(sum_up, count, Ghost(ms), Ghost(Metric::Upload)),
        avg_ping: average(sum_ping, count, Ghost(ms), Ghost(Metric::Ping)),
    };
    Summary { download, upload, stats }
}

} // verus!
