//! What is measured of a job, and where it is kept.

use vstd::prelude::*;

use crate::json::{has_key, key_index, lemma_key_index, lemma_set_entry, lookup};
use crate::text::{decimal, decimal_text, texts_view};
use crate::text_map::{without, TextMap};

verus! {

/// How a metric counts.
#[derive(Clone, Copy, Debug, PartialEq, Eq, Structural)]
pub enum MetricKind {
    /// A number that grows.
    Counter,
    /// A number that grows, for each value of some labels.
    LabelledCounter,
    /// A number that goes up and down.
    Gauge,
    /// How values spread over ranges, for each value of some labels.
    Histogram,
}

/// A metric of a job.
#[derive(Clone, Copy, Debug, PartialEq, Eq, Structural)]
pub enum Metric {
    UpstreamResponseTime,
    UpstreamRequestStatusCount,
    UpstreamRequestCount,
    ConnectionAttempt,
    ConnectionSuccess,
    ConnectionBroken,
    ConnectionDropped,
    ConnectionIdle,
    ConnectionBusy,
    PoolSize,
    AssertionFailure,
}

/// What a metric is called.
pub open spec fn metric_name(metric: Metric) -> Seq<char> {
    match metric {
        Metric::UpstreamResponseTime => "upstream_response_time"@,
        Metric::UpstreamRequestStatusCount => "upstream_request_status_count"@,
        Metric::UpstreamRequestCount => "upstream_request_count"@,
        Metric::ConnectionAttempt => "connection_pool_new_connection_attempt"@,
        Metric::ConnectionSuccess => "connection_pool_new_connection_success"@,
        Metric::ConnectionBroken => "connection_pool_connection_broken"@,
        Metric::ConnectionDropped => "connection_pool_connection_dropped"@,
        Metric::ConnectionIdle => "connection_pool_connection_idle"@,
        Metric::ConnectionBusy => "connection_pool_connection_busy"@,
        Metric::PoolSize => "connection_pool_size"@,
        Metric::AssertionFailure => "assertion_failure"@,
    }
}

/// What a metric means.
pub open spec fn metric_help(metric: Metric) -> Seq<char> {
    match metric {
        Metric::UpstreamResponseTime => "upstream response time"@,
        Metric::UpstreamRequestStatusCount => "upstream request count per status"@,
        Metric::UpstreamRequestCount => "request sent to upstream"@,
        Metric::ConnectionAttempt => "total number of connections attempted to create"@,
        Metric::ConnectionSuccess => "total number of connections created successfully"@,
        Metric::ConnectionBroken => "Number of broken connections"@,
        Metric::ConnectionDropped => "Number of dropped connections"@,
        Metric::ConnectionIdle => "Number of idle unbroken connection"@,
        Metric::ConnectionBusy => "Number of busy/borrowed connection from pool"@,
        Metric::PoolSize => "Connections pool size or connection per second"@,
        Metric::AssertionFailure => "Number of failed assertions with reasons and id"@,
    }
}

/// How a metric counts.
pub open spec fn metric_kind(metric: Metric) -> MetricKind {
    match metric {
        Metric::UpstreamResponseTime => MetricKind::Histogram,
        Metric::UpstreamRequestStatusCount => MetricKind::LabelledCounter,
        Metric::UpstreamRequestCount => MetricKind::Counter,
        Metric::ConnectionAttempt => MetricKind::Counter,
        Metric::ConnectionSuccess => MetricKind::Counter,
        Metric::ConnectionBroken => MetricKind::Counter,
        Metric::ConnectionDropped => MetricKind::Counter,
        Metric::ConnectionIdle => MetricKind::Gauge,
        Metric::ConnectionBusy => MetricKind::Gauge,
        Metric::PoolSize => MetricKind::Gauge,
        Metric::AssertionFailure => MetricKind::LabelledCounter,
    }
}

/// The labels whose values a metric tells apart.
pub open spec fn metric_labels(metric: Metric) -> Seq<Seq<char>> {
    match metric {
        Metric::UpstreamResponseTime => seq!["status"@],
        Metric::UpstreamRequestStatusCount => seq!["status"@],
        Metric::AssertionFailure => seq!["assertion_id"@, "reason"@],
        _ => Seq::empty(),
    }
}

impl Metric {
    pub fn name(&self) -> (r: &'static str)
        ensures
            r@ == metric_name(*self),
    {
        match self {
            Metric::UpstreamResponseTime => "upstream_response_time",
            Metric::UpstreamRequestStatusCount => "upstream_request_status_count",
            Metric::UpstreamRequestCount => "upstream_request_count",
            Metric::ConnectionAttempt => "connection_pool_new_connection_attempt",
            Metric::ConnectionSuccess => "connection_pool_new_connection_success",
            Metric::ConnectionBroken => "connection_pool_connection_broken",
            Metric::ConnectionDropped => "connection_pool_connection_dropped",
            Metric::ConnectionIdle => "connection_pool_connection_idle",
            Metric::ConnectionBusy => "connection_pool_connection_busy",
            Metric::PoolSize => "connection_pool_size",
            Metric::AssertionFailure => "assertion_failure",
        }
    }

    pub fn help(&self) -> (r: &'static str)
        ensures
            r@ == metric_help(*self),
    {
        match self {
            Metric::UpstreamResponseTime => "upstream response time",
            Metric::UpstreamRequestStatusCount => "upstream request count per status",
            Metric::UpstreamRequestCount => "request sent to upstream",
            Metric::ConnectionAttempt => "total number of connections attempted to create",
            Metric::ConnectionSuccess => "total number of connections created successfully",
            Metric::ConnectionBroken => "Number of broken connections",
            Metric::ConnectionDropped => "Number of dropped connections",
            Metric::ConnectionIdle => "Number of idle unbroken connection",
            Metric::ConnectionBusy => "Number of busy/borrowed connection from pool",
            Metric::PoolSize => "Connections pool size or connection per second",
            Metric::AssertionFailure => "Number of failed assertions with reasons and id",
        }
    }

    pub fn kind(&self) -> (r: MetricKind)
        ensures
            r == metric_kind(*self),
    {
        match self {
            Metric::UpstreamResponseTime => MetricKind::Histogram,
            Metric::UpstreamRequestStatusCount => MetricKind::LabelledCounter,
            Metric::UpstreamRequestCount => MetricKind::Counter,
            Metric::ConnectionAttempt => MetricKind::Counter,
            Metric::ConnectionSuccess => MetricKind::Counter,
            Metric::ConnectionBroken => MetricKind::Counter,
            Metric::ConnectionDropped => MetricKind::Counter,
            Metric::ConnectionIdle => MetricKind::Gauge,
            Metric::ConnectionBusy => MetricKind::Gauge,
            Metric::PoolSize => MetricKind::Gauge,
            Metric::AssertionFailure => MetricKind::LabelledCounter,
        }
    }

    pub fn labels(&self) -> (r: Vec<&'static str>)
        ensures
            r@.len() == metric_labels(*self).len(),
            forall|i: int| 0 <= i < r@.len() ==> (#[trigger] r@[i])@ == metric_labels(*self)[i],
    {
        let mut r: Vec<&'static str> = Vec::new();
        match self {
            Metric::UpstreamResponseTime => {
                r.push("status");
            },
            Metric::UpstreamRequestStatusCount => {
                r.push("status");
            },
            Metric::AssertionFailure => {
                r.push("assertion_id");
                r.push("reason");
            },
            _ => {},
        }
        r
    }
}

/// A metric to set up for a job. Its values all have the id of the job as a label.
#[derive(Debug)]
pub struct MetricSpec {
    pub metric: Metric,
    pub name: String,
    pub help: String,
    pub kind: MetricKind,
    pub labels: Vec<&'static str>,
    pub job_id: String,
}

/// `s` sets up a metric for a job.
pub open spec fn sets_up(s: MetricSpec, metric: Metric, job_id: Seq<char>) -> bool {
    &&& s.metric == metric
    &&& s.name@ == metric_name(metric)
    &&& s.help@ == metric_help(metric)
    &&& s.kind == metric_kind(metric)
    &&& s.labels@.len() == metric_labels(metric).len()
    &&& forall|i: int|
        0 <= i < s.labels@.len() ==> (#[trigger] s.labels@[i])@ == metric_labels(metric)[i]
    &&& s.job_id@ == job_id
}

/// The metrics of a job, in the order in which they are set up.
pub open spec fn all_metrics() -> Seq<Metric> {
    seq![
        Metric::UpstreamResponseTime,
        Metric::UpstreamRequestStatusCount,
        Metric::UpstreamRequestCount,
        Metric::ConnectionAttempt,
        Metric::ConnectionSuccess,
        Metric::ConnectionBroken,
        Metric::ConnectionDropped,
        Metric::ConnectionIdle,
        Metric::ConnectionBusy,
        Metric::PoolSize,
        Metric::AssertionFailure,
    ]
}

/// The metrics of a job, in the order in which they are taken down.
pub open spec fn taken_down() -> Seq<Metric> {
    seq![
        Metric::PoolSize,
        Metric::ConnectionIdle,
        Metric::UpstreamRequestCount,
        Metric::ConnectionBusy,
        Metric::ConnectionDropped,
        Metric::ConnectionBroken,
        Metric::ConnectionSuccess,
        Metric::ConnectionAttempt,
        Metric::UpstreamRequestStatusCount,
        Metric::UpstreamResponseTime,
        Metric::AssertionFailure,
    ]
}

fn metrics_in_order() -> (r: Vec<Metric>)
    ensures
        r@ == all_metrics(),
{
    let r = vec![
        Metric::UpstreamResponseTime,
        Metric::UpstreamRequestStatusCount,
        Metric::UpstreamRequestCount,
        Metric::ConnectionAttempt,
        Metric::ConnectionSuccess,
        Metric::ConnectionBroken,
        Metric::ConnectionDropped,
        Metric::ConnectionIdle,
        Metric::ConnectionBusy,
        Metric::PoolSize,
        Metric::AssertionFailure,
    ];
    assert(r@ =~= all_metrics());
    r
}

fn metrics_to_take_down() -> (r: Vec<Metric>)
    ensures
        r@ == taken_down(),
{
    let r = vec![
        Metric::PoolSize,
        Metric::ConnectionIdle,
        Metric::UpstreamRequestCount,
        Metric::ConnectionBusy,
        Metric::ConnectionDropped,
        Metric::ConnectionBroken,
        Metric::ConnectionSuccess,
        Metric::ConnectionAttempt,
        Metric::UpstreamRequestStatusCount,
        Metric::UpstreamResponseTime,
        Metric::AssertionFailure,
    ];
    assert(r@ =~= taken_down());
    r
}

/// Every metric is set up once and taken down once.
pub proof fn lemma_metrics_come_and_go(metric: Metric)
    ensures
        all_metrics().contains(metric),
        taken_down().contains(metric),
        all_metrics().no_duplicates(),
        taken_down().no_duplicates(),
        all_metrics().to_multiset() == taken_down().to_multiset(),
{
    let a = all_metrics();
    let b = taken_down();
    match metric {
        Metric::UpstreamResponseTime => {
            assert(a[0] == metric && b[9] == metric);
        },
        Metric::UpstreamRequestStatusCount => {
            assert(a[1] == metric && b[8] == metric);
        },
        Metric::UpstreamRequestCount => {
            assert(a[2] == metric && b[2] == metric);
        },
        Metric::ConnectionAttempt => {
            assert(a[3] == metric && b[7] == metric);
        },
        Metric::ConnectionSuccess => {
            assert(a[4] == metric && b[6] == metric);
        },
        Metric::ConnectionBroken => {
            assert(a[5] == metric && b[5] == metric);
        },
        Metric::ConnectionDropped => {
            assert(a[6] == metric && b[4] == metric);
        },
        Metric::ConnectionIdle => {
            assert(a[7] == metric && b[1] == metric);
        },
        Metric::ConnectionBusy => {
            assert(a[8] == metric && b[3] == metric);
        },
        Metric::PoolSize => {
            assert(a[9] == metric && b[0] == metric);
        },
        Metric::AssertionFailure => {
            assert(a[10] == metric && b[10] == metric);
        },
    }
    broadcast use vstd::seq_lib::group_to_multiset_ensures;
    assert(a.no_duplicates());
    assert(b.no_duplicates());
    assert forall|m: Metric| #[trigger] a.to_multiset().count(m) == b.to_multiset().count(m) by {
        match m {
            Metric::UpstreamResponseTime => {
                assert(a[0] == m && b[9] == m);
            },
            Metric::UpstreamRequestStatusCount => {
                assert(a[1] == m && b[8] == m);
            },
            Metric::UpstreamRequestCount => {
                assert(a[2] == m && b[2] == m);
            },
            Metric::ConnectionAttempt => {
                assert(a[3] == m && b[7] == m);
            },
            Metric::ConnectionSuccess => {
                assert(a[4] == m && b[6] == m);
            },
            Metric::ConnectionBroken => {
                assert(a[5] == m && b[5] == m);
            },
            Metric::ConnectionDropped => {
                assert(a[6] == m && b[4] == m);
            },
            Metric::ConnectionIdle => {
                assert(a[7] == m && b[1] == m);
            },
            Metric::ConnectionBusy => {
                assert(a[8] == m && b[3] == m);
            },
            Metric::PoolSize => {
                assert(a[9] == m && b[0] == m);
            },
            Metric::AssertionFailure => {
                assert(a[10] == m && b[10] == m);
            },
        }
        a.lemma_multiset_has_no_duplicates();
        b.lemma_multiset_has_no_duplicates();
        assert(a.contains(m) && b.contains(m));
    }
    assert(a.to_multiset() =~= b.to_multiset());
}

// ---------------------------------------------------------------------------------------------
// The metrics of jobs
// ---------------------------------------------------------------------------------------------

/// The metrics of all jobs. `H` is what gives access to the metrics of one.
#[derive(Debug)]
pub struct MetricsFactory<H> {
    pub jobs: TextMap<H>,
}

impl<H> MetricsFactory<H> {
    pub open spec fn wf(&self) -> bool {
        self.jobs.wf()
    }

    pub fn new() -> (r: MetricsFactory<H>)
        ensures
            r.wf(),
            r.jobs.entries().len() == 0,
    {
        MetricsFactory { jobs: TextMap::new() }
    }

    /// The metrics of a job, where they were set up; otherwise what to set up.
    pub fn metrics_with_buckets(&self, job_id: &str) -> (r: Result<&H, Vec<MetricSpec>>)
        ensures
            match r {
                Ok(handle) => self.jobs.at(job_id@) == Some(*handle),
                Err(specs) => {
                    &&& self.jobs.at(job_id@) is None
                    &&& specs@.len() == all_metrics().len()
                    &&& forall|i: int|
                        0 <= i < specs@.len() ==> sets_up(
                            #[trigger] specs@[i],
                            all_metrics()[i],
                            job_id@,
                        )
                },
            },
    {
        match self.jobs.get(job_id) {
            Some(handle) => Ok(handle),
            None => {
                let metrics = metrics_in_order();
                let mut specs: Vec<MetricSpec> = Vec::new();
                let mut i: usize = 0;
                while i < metrics.len()
                    invariant
                        i <= metrics@.len(),
                        metrics@ == all_metrics(),
                        specs@.len() == i,
                        forall|k: int|
                            0 <= k < i ==> sets_up(
                                #[trigger] specs@[k],
                                all_metrics()[k],
                                job_id@,
                            ),
                    decreases metrics@.len() - i,
                {
                    let metric = metrics[i];
                    let spec = MetricSpec {
                        metric,
                        name: metric.name().to_owned(),
                        help: metric.help().to_owned(),
                        kind: metric.kind(),
                        labels: metric.labels(),
                        job_id: job_id.to_owned(),
                    };
                    assert(sets_up(spec, all_metrics()[i as int], job_id@));
                    specs.push(spec);
                    i += 1;
                }
                Err(specs)
            },
        }
    }

    /// Keeps the metrics of a job.
    pub fn keep(&mut self, job_id: String, handle: H)
        requires
            old(self).wf(),
        ensures
            final(self).wf(),
            final(self).jobs.at(job_id@) == Some(handle),
            forall|other: Seq<char>|
                other != job_id@ ==> #[trigger] final(self).jobs.at(other) == old(self).jobs.at(
                    other,
                ),
    {
        proof {
            lemma_set_entry(self.jobs.entries(), job_id@, handle);
        }
        self.jobs.insert(job_id, handle);
    }

    /// Gives the metrics of a job up: what gave access to them, and what to take down.
    pub fn remove_metrics(&mut self, job_id: &str) -> (r: Option<(H, Vec<Metric>)>)
        requires
            old(self).wf(),
        ensures
            final(self).wf(),
            final(self).jobs.at(job_id@) is None,
            forall|other: Seq<char>|
                other != job_id@ ==> #[trigger] final(self).jobs.at(other) == old(self).jobs.at(
                    other,
                ),
            match r {
                Some((handle, metrics)) => old(self).jobs.at(job_id@) == Some(handle) && metrics@
                    == taken_down(),
                None => old(self).jobs.at(job_id@) is None,
            },
    {
        proof {
            lemma_without(self.jobs.entries(), job_id@);
        }
        match self.jobs.remove(job_id) {
            Some(handle) => Some((handle, metrics_to_take_down())),
            None => None,
        }
    }
}

/// Taking an entry out leaves the others as they were.
proof fn lemma_without<T>(entries: Seq<(Seq<char>, T)>, key: Seq<char>)
    requires
        crate::json::unique_keys(entries),
    ensures
        lookup(without(entries, key), key) is None,
        forall|other: Seq<char>|
            other != key ==> #[trigger] lookup(without(entries, key), other) == lookup(
                entries,
                other,
            ),
{
    let at = key_index(entries, key);
    let after = without(entries, key);
    lemma_key_index(entries, key);
    lemma_key_index(after, key);
    if at >= 0 && has_key(after, key) {
        let k = choose|k: int| 0 <= k < after.len() && (#[trigger] after[k]).0 == key;
        if k < at {
            assert(after[k] == entries[k]);
        } else {
            assert(after[k] == entries[k + 1]);
        }
    }
    assert forall|other: Seq<char>| other != key implies #[trigger] lookup(after, other) == lookup(
        entries,
        other,
    ) by {
        lemma_key_index(entries, other);
        lemma_key_index(after, other);
        if at >= 0 {
            let i = key_index(entries, other);
            if i >= 0 {
                let k = if i < at {
                    i
                } else {
                    i - 1
                };
                assert(after[k] == entries[i]);
                assert(has_key(after, other));
                let m = key_index(after, other);
                let n = if m < at {
                    m
                } else {
                    m + 1
                };
                assert(after[m] == entries[n]);
                assert(entries[n].0 == entries[i].0);
                assert(n == i);
            } else if key_index(after, other) >= 0 {
                let m = key_index(after, other);
                let n = if m < at {
                    m
                } else {
                    m + 1
                };
                assert(after[m] == entries[n]);
                assert(has_key(entries, other));
            }
        }
    }
}

// ---------------------------------------------------------------------------------------------
// Measuring
// ---------------------------------------------------------------------------------------------

/// How a metric changes.
#[derive(Clone, Copy, Debug, PartialEq, Eq, Structural)]
pub enum Change {
    /// A counter grows.
    IncrementBy(u64),
    /// A gauge goes up, or down.
    Add(i64),
    /// A gauge is set.
    SetTo(u64),
    /// A histogram gets one more value.
    Observe(u64),
}

/// A change of a metric, under the values of its labels.
#[derive(Debug)]
pub struct Update {
    pub metric: Metric,
    pub labels: Vec<String>,
    pub change: Change,
}

/// An [`Update`].
pub struct UpdateView {
    pub metric: Metric,
    pub labels: Seq<Seq<char>>,
    pub change: Change,
}

impl View for Update {
    type V = UpdateView;

    open spec fn view(&self) -> UpdateView {
        UpdateView {
            metric: self.metric,
            labels: texts_view(self.labels@),
            change: self.change,
        }
    }
}

/// Changes of metrics, viewed.
pub open spec fn measures(list: Seq<Update>) -> Seq<UpdateView> {
    Seq::new(list.len(), |i: int| list[i]@)
}

/// One more under the values of the labels of a counter.
pub open spec fn counted(metric: Metric, labels: Seq<Seq<char>>) -> UpdateView {
    UpdateView { metric, labels, change: Change::IncrementBy(1) }
}

/// A change is what its parts are.
pub proof fn lemma_update(u: Update, metric: Metric, labels: Seq<Seq<char>>, change: Change)
    requires
        updates(u, metric, labels, change),
    ensures
        u@ == (UpdateView { metric, labels, change }),
{
    assert(u@.labels =~= labels);
}

/// A metric, the values of its labels, and how it changes.
pub open spec fn updates(u: Update, metric: Metric, labels: Seq<Seq<char>>, change: Change) -> bool {
    &&& u.metric == metric
    &&& u.labels@.len() == labels.len()
    &&& forall|i: int| 0 <= i < labels.len() ==> (#[trigger] u.labels@[i])@ == labels[i]
    &&& u.change == change
}

/// A change fits a metric: it is one that the kind of the metric has, and gives each label a
/// value.
pub open spec fn fits(u: Update) -> bool {
    &&& u.labels@.len() == metric_labels(u.metric).len()
    &&& match metric_kind(u.metric) {
        MetricKind::Counter => u.change is IncrementBy,
        MetricKind::LabelledCounter => u.change is IncrementBy,
        MetricKind::Gauge => u.change is Add || u.change is SetTo,
        MetricKind::Histogram => u.change is Observe,
    }
}

/// What happens in a job, as changes of its metrics.
pub struct Metrics;

fn no_labels() -> (r: Vec<String>)
    ensures
        r@.len() == 0,
{
    Vec::new()
}

fn one_label(value: &str) -> (r: Vec<String>)
    ensures
        r@.len() == 1,
        r@[0]@ == value@,
{
    let mut r: Vec<String> = Vec::new();
    r.push(value.to_owned());
    r
}

impl Metrics {
    /// Requests were sent.
    pub fn upstream_request_count(increment: u64) -> (r: Update)
        ensures
            updates(r, Metric::UpstreamRequestCount, Seq::empty(), Change::IncrementBy(increment)),
            fits(r),
    {
        Update { metric: Metric::UpstreamRequestCount, labels: no_labels(), change: Change::IncrementBy(increment) }
    }

    /// Requests had this status.
    pub fn upstream_request_status_count(increment: u64, status: &str) -> (r: Update)
        ensures
            updates(r, Metric::UpstreamRequestStatusCount, seq![status@], Change::IncrementBy(increment)),
            fits(r),
    {
        Update { metric: Metric::UpstreamRequestStatusCount, labels: one_label(status), change: Change::IncrementBy(increment) }
    }

    /// A response came after so many milliseconds.
    pub fn upstream_response_time(status: &str, elapsed: u64) -> (r: Update)
        ensures
            updates(r, Metric::UpstreamResponseTime, seq![status@], Change::Observe(elapsed)),
            fits(r),
    {
        Update { metric: Metric::UpstreamResponseTime, labels: one_label(status), change: Change::Observe(elapsed) }
    }

    /// Connections are to be opened.
    pub fn pool_connection_attempt(count: u64) -> (r: Update)
        ensures
            updates(r, Metric::ConnectionAttempt, Seq::empty(), Change::IncrementBy(count)),
            fits(r),
    {
        Update { metric: Metric::ConnectionAttempt, labels: no_labels(), change: Change::IncrementBy(count) }
    }

    /// Connections were opened.
    pub fn pool_connection_success(count: u64) -> (r: Update)
        ensures
            updates(r, Metric::ConnectionSuccess, Seq::empty(), Change::IncrementBy(count)),
            fits(r),
    {
        Update { metric: Metric::ConnectionSuccess, labels: no_labels(), change: Change::IncrementBy(count) }
    }

    /// Connections broke.
    pub fn pool_connection_broken(count: u64) -> (r: Update)
        ensures
            updates(r, Metric::ConnectionBroken, Seq::empty(), Change::IncrementBy(count)),
            fits(r),
    {
        Update { metric: Metric::ConnectionBroken, labels: no_labels(), change: Change::IncrementBy(count) }
    }

    /// Connections were dropped.
    pub fn pool_connection_dropped(count: u64) -> (r: Update)
        ensures
            updates(r, Metric::ConnectionDropped, Seq::empty(), Change::IncrementBy(count)),
            fits(r),
    {
        Update { metric: Metric::ConnectionDropped, labels: no_labels(), change: Change::IncrementBy(count) }
    }

    /// So many more connections are in use.
    pub fn pool_connection_busy(count: i64) -> (r: Update)
        ensures
            updates(r, Metric::ConnectionBusy, Seq::empty(), Change::Add(count)),
            fits(r),
    {
        Update { metric: Metric::ConnectionBusy, labels: no_labels(), change: Change::Add(count) }
    }

    /// So many more connections are free.
    pub fn pool_connection_idle(count: i64) -> (r: Update)
        ensures
            updates(r, Metric::ConnectionIdle, Seq::empty(), Change::Add(count)),
            fits(r),
    {
        Update { metric: Metric::ConnectionIdle, labels: no_labels(), change: Change::Add(count) }
    }

    /// The pool has this many connections.
    pub fn pool_size(count: u64) -> (r: Update)
        ensures
            updates(r, Metric::PoolSize, Seq::empty(), Change::SetTo(count)),
            fits(r),
    {
        Update { metric: Metric::PoolSize, labels: no_labels(), change: Change::SetTo(count) }
    }

    /// A response could not be read for its checks.
    pub fn assertion_parse_failure(reason: &str) -> (r: Update)
        ensures
            updates(
                r,
                Metric::AssertionFailure,
                seq!["parse_err"@, reason@],
                Change::IncrementBy(1),
            ),
            fits(r),
    {
        let mut labels = one_label("parse_err");
        labels.push(reason.to_owned());
        Update { metric: Metric::AssertionFailure, labels, change: Change::IncrementBy(1) }
    }

    /// A check failed.
    pub fn assertion_failure(id: u32, reason: &str) -> (r: Update)
        ensures
            updates(
                r,
                Metric::AssertionFailure,
                seq![decimal_text(id as nat), reason@],
                Change::IncrementBy(1),
            ),
            fits(r),
    {
        let mut labels = one_label(decimal(id as u64).as_str());
        labels.push(reason.to_owned());
        Update { metric: Metric::AssertionFailure, labels, change: Change::IncrementBy(1) }
    }
}

} // verus!
