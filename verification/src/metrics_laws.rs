//! Laws of what is measured: every event moves the metrics that it should, by what it should.

use vstd::prelude::*;

use crate::metrics::{
    all_metrics, taken_down, Change, Metric, MetricKind, MetricSpec,
    Metrics, MetricsFactory, Update,
};
use crate::pool_metrics::{on_attempt, on_granted, on_opened, on_returned, on_surplus};
use crate::text::natural_value;

verus! {

// ---------------------------------------------------------------------------------------------
// Names and kinds
// ---------------------------------------------------------------------------------------------

/// What the metrics are called. No two have the same name.
pub proof fn lemma_names(metric: Metric, r: &'static str)
    requires
        call_ensures(Metric::name, (&metric,), r),
    ensures
        r@ == "upstream_response_time"@ <==> metric == Metric::UpstreamResponseTime,
        r@ == "upstream_request_status_count"@ <==> metric == Metric::UpstreamRequestStatusCount,
        r@ == "upstream_request_count"@ <==> metric == Metric::UpstreamRequestCount,
        r@ == "connection_pool_new_connection_attempt"@ <==> metric == Metric::ConnectionAttempt,
        r@ == "connection_pool_new_connection_success"@ <==> metric == Metric::ConnectionSuccess,
        r@ == "connection_pool_connection_broken"@ <==> metric == Metric::ConnectionBroken,
        r@ == "connection_pool_connection_dropped"@ <==> metric == Metric::ConnectionDropped,
        r@ == "connection_pool_connection_idle"@ <==> metric == Metric::ConnectionIdle,
        r@ == "connection_pool_connection_busy"@ <==> metric == Metric::ConnectionBusy,
        r@ == "connection_pool_size"@ <==> metric == Metric::PoolSize,
        r@ == "assertion_failure"@ <==> metric == Metric::AssertionFailure,
{
    reveal_strlit("upstream_response_time");
    reveal_strlit("upstream_request_status_count");
    reveal_strlit("upstream_request_count");
    reveal_strlit("connection_pool_new_connection_attempt");
    reveal_strlit("connection_pool_new_connection_success");
    reveal_strlit("connection_pool_connection_broken");
    reveal_strlit("connection_pool_connection_dropped");
    reveal_strlit("connection_pool_connection_idle");
    reveal_strlit("connection_pool_connection_busy");
    reveal_strlit("connection_pool_size");
    reveal_strlit("assertion_failure");
    assert("upstream_response_time"@.len() != "upstream_request_status_count"@.len());
    assert("upstream_response_time"@[11] != "upstream_request_count"@[11]);
    assert("upstream_response_time"@.len() != "connection_pool_new_connection_attempt"@.len());
    assert("upstream_response_time"@.len() != "connection_pool_new_connection_success"@.len());
    assert("upstream_response_time"@.len() != "connection_pool_connection_broken"@.len());
    assert("upstream_response_time"@.len() != "connection_pool_connection_dropped"@.len());
    assert("upstream_response_time"@.len() != "connection_pool_connection_idle"@.len());
    assert("upstream_response_time"@.len() != "connection_pool_connection_busy"@.len());
    assert("upstream_response_time"@.len() != "connection_pool_size"@.len());
    assert("upstream_response_time"@.len() != "assertion_failure"@.len());
    assert("upstream_request_status_count"@.len() != "upstream_request_count"@.len());
    assert("upstream_request_status_count"@.len() != "connection_pool_new_connection_attempt"@.len());
    assert("upstream_request_status_count"@.len() != "connection_pool_new_connection_success"@.len());
    assert("upstream_request_status_count"@.len() != "connection_pool_connection_broken"@.len());
    assert("upstream_request_status_count"@.len() != "connection_pool_connection_dropped"@.len());
    assert("upstream_request_status_count"@.len() != "connection_pool_connection_idle"@.len());
    assert("upstream_request_status_count"@.len() != "connection_pool_connection_busy"@.len());
    assert("upstream_request_status_count"@.len() != "connection_pool_size"@.len());
    assert("upstream_request_status_count"@.len() != "assertion_failure"@.len());
    assert("upstream_request_count"@.len() != "connection_pool_new_connection_attempt"@.len());
    assert("upstream_request_count"@.len() != "connection_pool_new_connection_success"@.len());
    assert("upstream_request_count"@.len() != "connection_pool_connection_broken"@.len());
    assert("upstream_request_count"@.len() != "connection_pool_connection_dropped"@.len());
    assert("upstream_request_count"@.len() != "connection_pool_connection_idle"@.len());
    assert("upstream_request_count"@.len() != "connection_pool_connection_busy"@.len());
    assert("upstream_request_count"@.len() != "connection_pool_size"@.len());
    assert("upstream_request_count"@.len() != "assertion_failure"@.len());
    assert("connection_pool_new_connection_attempt"@[31] != "connection_pool_new_connection_success"@[31]);
    assert("connection_pool_new_connection_attempt"@.len() != "connection_pool_connection_broken"@.len());
    assert("connection_pool_new_connection_attempt"@.len() != "connection_pool_connection_dropped"@.len());
    assert("connection_pool_new_connection_attempt"@.len() != "connection_pool_connection_idle"@.len());
    assert("connection_pool_new_connection_attempt"@.len() != "connection_pool_connection_busy"@.len());
    assert("connection_pool_new_connection_attempt"@.len() != "connection_pool_size"@.len());
    assert("connection_pool_new_connection_attempt"@.len() != "assertion_failure"@.len());
    assert("connection_pool_new_connection_success"@.len() != "connection_pool_connection_broken"@.len());
    assert("connection_pool_new_connection_success"@.len() != "connection_pool_connection_dropped"@.len());
    assert("connection_pool_new_connection_success"@.len() != "connection_pool_connection_idle"@.len());
    assert("connection_pool_new_connection_success"@.len() != "connection_pool_connection_busy"@.len());
    assert("connection_pool_new_connection_success"@.len() != "connection_pool_size"@.len());
    assert("connection_pool_new_connection_success"@.len() != "assertion_failure"@.len());
    assert("connection_pool_connection_broken"@.len() != "connection_pool_connection_dropped"@.len());
    assert("connection_pool_connection_broken"@.len() != "connection_pool_connection_idle"@.len());
    assert("connection_pool_connection_broken"@.len() != "connection_pool_connection_busy"@.len());
    assert("connection_pool_connection_broken"@.len() != "connection_pool_size"@.len());
    assert("connection_pool_connection_broken"@.len() != "assertion_failure"@.len());
    assert("connection_pool_connection_dropped"@.len() != "connection_pool_connection_idle"@.len());
    assert("connection_pool_connection_dropped"@.len() != "connection_pool_connection_busy"@.len());
    assert("connection_pool_connection_dropped"@.len() != "connection_pool_size"@.len());
    assert("connection_pool_connection_dropped"@.len() != "assertion_failure"@.len());
    assert("connection_pool_connection_idle"@[27] != "connection_pool_connection_busy"@[27]);
    assert("connection_pool_connection_idle"@.len() != "connection_pool_size"@.len());
    assert("connection_pool_connection_idle"@.len() != "assertion_failure"@.len());
    assert("connection_pool_connection_busy"@.len() != "connection_pool_size"@.len());
    assert("connection_pool_connection_busy"@.len() != "assertion_failure"@.len());
    assert("connection_pool_size"@.len() != "assertion_failure"@.len());
}

/// What is said of the metrics.
pub proof fn lemma_helps(metric: Metric, r: &'static str)
    requires
        call_ensures(Metric::help, (&metric,), r),
    ensures
        metric == Metric::UpstreamResponseTime ==> r@ == "upstream response time"@,
        metric == Metric::UpstreamRequestStatusCount ==> r@ == "upstream request count per status"@,
        metric == Metric::UpstreamRequestCount ==> r@ == "request sent to upstream"@,
        metric == Metric::ConnectionAttempt ==> r@ == "total number of connections attempted to create"@,
        metric == Metric::ConnectionSuccess ==> r@ == "total number of connections created successfully"@,
        metric == Metric::ConnectionBroken ==> r@ == "Number of broken connections"@,
        metric == Metric::ConnectionDropped ==> r@ == "Number of dropped connections"@,
        metric == Metric::ConnectionIdle ==> r@ == "Number of idle unbroken connection"@,
        metric == Metric::ConnectionBusy ==> r@ == "Number of busy/borrowed connection from pool"@,
        metric == Metric::PoolSize ==> r@ == "Connections pool size or connection per second"@,
        metric == Metric::AssertionFailure ==> r@ == "Number of failed assertions with reasons and id"@,
{
}

/// Connections that are free or in use, and the size of the pool, go up and down. Times are
/// spread over ranges. Everything else is counted; what depends on a status or a check is counted
/// for each.
pub proof fn lemma_kinds(metric: Metric, kind: MetricKind, labels: Vec<&'static str>)
    requires
        call_ensures(Metric::kind, (&metric,), kind),
        call_ensures(Metric::labels, (&metric,), labels),
    ensures
        kind == MetricKind::Gauge <==> metric == Metric::ConnectionIdle || metric
            == Metric::ConnectionBusy || metric == Metric::PoolSize,
        kind == MetricKind::Histogram <==> metric == Metric::UpstreamResponseTime,
        kind == MetricKind::LabelledCounter <==> metric == Metric::UpstreamRequestStatusCount
            || metric == Metric::AssertionFailure,
        labels@.len() == 1 <==> metric == Metric::UpstreamResponseTime || metric
            == Metric::UpstreamRequestStatusCount,
        labels@.len() == 2 <==> metric == Metric::AssertionFailure,
        labels@.len() <= 2,
        labels@.len() == 1 ==> labels@[0]@ == "status"@,
        labels@.len() == 2 ==> labels@[0]@ == "assertion_id"@ && labels@[1]@ == "reason"@,
{
}

// ---------------------------------------------------------------------------------------------
// The metrics of jobs
// ---------------------------------------------------------------------------------------------

/// The number of times a metric is set up.
pub open spec fn set_up(specs: Seq<MetricSpec>, metric: Metric, k: nat) -> nat
    decreases k,
{
    if k == 0 {
        0
    } else {
        set_up(specs, metric, (k - 1) as nat) + if specs[k - 1].metric == metric {
            1nat
        } else {
            0nat
        }
    }
}

/// The number of times a metric is taken down.
pub open spec fn gone(list: Seq<Metric>, metric: Metric, k: nat) -> nat
    decreases k,
{
    if k == 0 {
        0
    } else {
        gone(list, metric, (k - 1) as nat) + if list[k - 1] == metric {
            1nat
        } else {
            0nat
        }
    }
}

/// For a job that has no metrics every metric is set up once, as it is called, as it counts and
/// under the id of the job. A job that has metrics keeps them.
pub proof fn lemma_set_up<H>(
    factory: MetricsFactory<H>,
    job_id: &str,
    metric: Metric,
    r: Result<&H, Vec<MetricSpec>>,
)
    requires
        factory.wf(),
        call_ensures(MetricsFactory::<H>::metrics_with_buckets, (&factory, job_id), r),
    ensures
        r is Ok <==> exists|k: int|
            0 <= k < factory.jobs.entries().len() && (#[trigger] factory.jobs.entries()[k]).0
                == job_id@,
        r matches Ok(handle) ==> factory.jobs.entries().contains((job_id@, *handle)),
        r matches Err(specs) ==> {
            &&& set_up(specs@, metric, specs@.len()) == 1
            &&& forall|i: int| 0 <= i < specs@.len() ==> (#[trigger] specs@[i]).job_id@ == job_id@
        },
{
    crate::json::lemma_key_index(factory.jobs.entries(), job_id@);
    if let Ok(handle) = r {
        let k = crate::json::key_index(factory.jobs.entries(), job_id@);
        assert(factory.jobs.entries()[k] == (job_id@, *handle));
    }
    if let Err(specs) = r {
        let all = all_metrics();
        assert(all.len() == 11);
        assert forall|i: int| 0 <= i < 11 implies (#[trigger] specs@[i]).metric == all[i]
            && specs@[i].job_id@ == job_id@ by {}
        reveal_with_fuel(set_up, 12);
    }
}

/// What is set up is called, described and labelled as the metric is.
pub proof fn lemma_set_up_as<H>(
    factory: MetricsFactory<H>,
    job_id: &str,
    r: Result<&H, Vec<MetricSpec>>,
    i: int,
    name: &'static str,
    help: &'static str,
    kind: MetricKind,
    labels: Vec<&'static str>,
)
    requires
        call_ensures(MetricsFactory::<H>::metrics_with_buckets, (&factory, job_id), r),
        r is Err,
        0 <= i < r->Err_0@.len(),
        call_ensures(Metric::name, (&r->Err_0@[i].metric,), name),
        call_ensures(Metric::help, (&r->Err_0@[i].metric,), help),
        call_ensures(Metric::kind, (&r->Err_0@[i].metric,), kind),
        call_ensures(Metric::labels, (&r->Err_0@[i].metric,), labels),
    ensures
        r->Err_0@[i].name@ == name@,
        r->Err_0@[i].help@ == help@,
        r->Err_0@[i].kind == kind,
        r->Err_0@[i].labels@.len() == labels@.len(),
        forall|k: int| 0 <= k < labels@.len() ==> r->Err_0@[i].labels@[k]@ == labels@[k]@,
{
    let spec = r->Err_0@[i];
    assert(crate::metrics::sets_up(spec, all_metrics()[i], job_id@));
    assert forall|k: int| 0 <= k < labels@.len() implies spec.labels@[k]@ == labels@[k]@ by {
        assert(spec.labels@[k]@ == crate::metrics::metric_labels(spec.metric)[k]);
        assert(labels@[k]@ == crate::metrics::metric_labels(spec.metric)[k]);
    }
}

/// The metrics of a job are found after they were kept, and not after they were given up, which
/// hands them back and takes every metric down once. Those of other jobs stay.
pub proof fn lemma_kept_and_gone<H>(
    kept: &mut MetricsFactory<H>,
    job_id: String,
    same: &str,
    handle: H,
    found: Result<&H, Vec<MetricSpec>>,
    given_up: &mut MetricsFactory<H>,
    removed: Option<(H, Vec<Metric>)>,
    after: Result<&H, Vec<MetricSpec>>,
    metric: Metric,
)
    requires
        old(kept).wf(),
        same@ == job_id@,
        call_ensures(MetricsFactory::<H>::keep, (kept, job_id, handle), ()),
        call_ensures(MetricsFactory::<H>::metrics_with_buckets, (&*final(kept), same), found),
        *old(given_up) == *final(kept),
        call_ensures(MetricsFactory::<H>::remove_metrics, (given_up, same), removed),
        call_ensures(MetricsFactory::<H>::metrics_with_buckets, (&*final(given_up), same), after),
    ensures
        found is Ok && *found->Ok_0 == handle,
        removed is Some && (removed->0).0 == handle,
        gone((removed->0).1@, metric, (removed->0).1@.len()) == 1,
        after is Err,
        forall|other: Seq<char>|
            other != job_id@ ==> #[trigger] final(given_up).jobs.at(other) == old(kept).jobs.at(
                other,
            ),
{
    let list = (removed->0).1@;
    assert(list == taken_down());
    assert(list.len() == 11);
    reveal_with_fuel(gone, 12);
    assert forall|other: Seq<char>| other != job_id@ implies #[trigger] final(given_up).jobs.at(
        other,
    ) == old(kept).jobs.at(other) by {
        assert(final(kept).jobs.at(other) == old(kept).jobs.at(other));
    }
}

// ---------------------------------------------------------------------------------------------
// Measuring
// ---------------------------------------------------------------------------------------------

/// By how much a change makes a counter grow.
pub open spec fn growth(u: Update, counter: Metric) -> int {
    match u.change {
        Change::IncrementBy(n) => if u.metric == counter {
            n as int
        } else {
            0
        },
        _ => 0,
    }
}

/// By how much a change moves a gauge.
pub open spec fn shift(u: Update, gauge: Metric) -> int {
    match u.change {
        Change::Add(n) => if u.metric == gauge {
            n as int
        } else {
            0
        },
        _ => 0,
    }
}

/// By how much the first `k` changes make a counter grow.
pub open spec fn grown(us: Seq<Update>, counter: Metric, k: nat) -> int
    decreases k,
{
    if k == 0 {
        0
    } else {
        grown(us, counter, (k - 1) as nat) + growth(us[k - 1], counter)
    }
}

/// By how much the first `k` changes move a gauge.
pub open spec fn shifted(us: Seq<Update>, gauge: Metric, k: nat) -> int
    decreases k,
{
    if k == 0 {
        0
    } else {
        shifted(us, gauge, (k - 1) as nat) + shift(us[k - 1], gauge)
    }
}

/// Nothing is set or observed, and no change has labels.
pub open spec fn plain(us: Seq<Update>) -> bool {
    forall|i: int|
        0 <= i < us.len() ==> (#[trigger] us[i]).labels@.len() == 0 && (us[i].change is IncrementBy
            || us[i].change is Add)
}

/// Connections that are given out are no longer free and now in use. Broken ones count as broken
/// and as dropped.
pub proof fn lemma_granted_measured(
    ready: usize,
    broken: u64,
    dropped: u64,
    r: Vec<Update>,
    metric: Metric,
)
    requires
        ready <= i64::MAX,
        broken + dropped <= u64::MAX,
        call_ensures(on_granted, (ready, broken, dropped), r),
    ensures
        plain(r@),
        grown(r@, metric, r@.len()) == if metric == Metric::ConnectionBroken {
            broken as int
        } else if metric == Metric::ConnectionDropped {
            broken + dropped
        } else {
            0
        },
        shifted(r@, metric, r@.len()) == if metric == Metric::ConnectionBusy {
            ready as int
        } else if metric == Metric::ConnectionIdle {
            -(ready as int)
        } else {
            0
        },
{
    assert(r@.len() == 4);
    assert(r@[0].metric == r@[0].metric && r@[1].metric == r@[1].metric);
    assert(r@[2].metric == r@[2].metric && r@[3].metric == r@[3].metric);
    reveal_with_fuel(grown, 5);
    reveal_with_fuel(shifted, 5);
}

/// Surplus connections are dropped and no longer free.
pub proof fn lemma_surplus_measured(surplus: usize, r: Vec<Update>, metric: Metric)
    requires
        surplus <= i64::MAX,
        call_ensures(on_surplus, (surplus,), r),
    ensures
        plain(r@),
        grown(r@, metric, r@.len()) == if metric == Metric::ConnectionDropped {
            surplus as int
        } else {
            0
        },
        shifted(r@, metric, r@.len()) == if metric == Metric::ConnectionIdle {
            -(surplus as int)
        } else {
            0
        },
{
    if surplus > 0 {
        assert(r@.len() == 2);
        assert(r@[0].metric == r@[0].metric && r@[1].metric == r@[1].metric);
    }
    reveal_with_fuel(grown, 3);
    reveal_with_fuel(shifted, 3);
}

/// A connection that comes back is free and no longer in use.
pub proof fn lemma_returned_measured(r: Vec<Update>, metric: Metric)
    requires
        call_ensures(on_returned, (), r),
    ensures
        plain(r@),
        grown(r@, metric, r@.len()) == 0,
        shifted(r@, metric, r@.len()) == if metric == Metric::ConnectionBusy {
            -1int
        } else if metric == Metric::ConnectionIdle {
            1
        } else {
            0
        },
{
    assert(r@.len() == 2);
    assert(r@[0].metric == r@[0].metric && r@[1].metric == r@[1].metric);
    reveal_with_fuel(grown, 3);
    reveal_with_fuel(shifted, 3);
}

/// Of the connections that are attempted those that were opened count as successes and are free;
/// the rest failed.
pub proof fn lemma_opened_measured(
    count: usize,
    opened: usize,
    attempt: Update,
    r: (usize, Vec<Update>),
    metric: Metric,
)
    requires
        opened <= count <= i64::MAX,
        call_ensures(on_attempt, (count as u64,), attempt),
        call_ensures(on_opened, (count, opened), r),
    ensures
        attempt.metric == Metric::ConnectionAttempt,
        growth(attempt, Metric::ConnectionAttempt) == r.0 + grown(
            r.1@,
            Metric::ConnectionSuccess,
            r.1@.len(),
        ),
        plain(r.1@),
        grown(r.1@, metric, r.1@.len()) == if metric == Metric::ConnectionSuccess {
            opened as int
        } else {
            0
        },
        shifted(r.1@, metric, r.1@.len()) == if metric == Metric::ConnectionIdle {
            opened as int
        } else {
            0
        },
{
    let one = seq![attempt];
    assert(one[0].metric == attempt.metric);
    let us = r.1@;
    assert(us.len() == 2);
    assert(us[0].metric == us[0].metric && us[1].metric == us[1].metric);
    reveal_with_fuel(grown, 3);
    reveal_with_fuel(shifted, 3);
}

/// Events that are counted: each makes its own counter grow by its number, and nothing else.
pub proof fn lemma_counted(
    n: u64,
    sent: Update,
    attempts: Update,
    successes: Update,
    broken: Update,
    dropped: Update,
)
    requires
        call_ensures(Metrics::upstream_request_count, (n,), sent),
        call_ensures(Metrics::pool_connection_attempt, (n,), attempts),
        call_ensures(Metrics::pool_connection_success, (n,), successes),
        call_ensures(Metrics::pool_connection_broken, (n,), broken),
        call_ensures(Metrics::pool_connection_dropped, (n,), dropped),
    ensures
        plain(seq![sent, attempts, successes, broken, dropped]),
        growth(sent, Metric::UpstreamRequestCount) == n,
        growth(attempts, Metric::ConnectionAttempt) == n,
        growth(successes, Metric::ConnectionSuccess) == n,
        growth(broken, Metric::ConnectionBroken) == n,
        growth(dropped, Metric::ConnectionDropped) == n,
{
}

/// Gauges move by what they are told, or are set to it.
pub proof fn lemma_gauged(n: i64, size: u64, busy: Update, idle: Update, pool: Update)
    requires
        call_ensures(Metrics::pool_connection_busy, (n,), busy),
        call_ensures(Metrics::pool_connection_idle, (n,), idle),
        call_ensures(Metrics::pool_size, (size,), pool),
    ensures
        shift(busy, Metric::ConnectionBusy) == n && busy.labels@.len() == 0,
        busy.metric == Metric::ConnectionBusy,
        shift(idle, Metric::ConnectionIdle) == n && idle.labels@.len() == 0,
        idle.metric == Metric::ConnectionIdle,
        pool.metric == Metric::PoolSize && pool.change == Change::SetTo(size)
            && pool.labels@.len() == 0,
{
}

/// A response is counted, and its time observed, under its status.
pub proof fn lemma_answer_measured(
    n: u64,
    status: &str,
    elapsed: u64,
    count: Update,
    time: Update,
)
    requires
        call_ensures(Metrics::upstream_request_status_count, (n, status), count),
        call_ensures(Metrics::upstream_response_time, (status, elapsed), time),
    ensures
        growth(count, Metric::UpstreamRequestStatusCount) == n,
        count.metric == Metric::UpstreamRequestStatusCount,
        count.labels@.len() == 1 && count.labels@[0]@ == status@,
        time.metric == Metric::UpstreamResponseTime && time.change == Change::Observe(elapsed),
        time.labels@.len() == 1 && time.labels@[0]@ == status@,
{
}

/// A failed check is counted once under its id, in digits, and its reason; a response that could
/// not be read is counted once under its own name.
pub proof fn lemma_failure_measured(id: u32, reason: &str, check: Update, parse: Update)
    requires
        call_ensures(Metrics::assertion_failure, (id, reason), check),
        call_ensures(Metrics::assertion_parse_failure, (reason,), parse),
    ensures
        growth(check, Metric::AssertionFailure) == 1,
        check.labels@.len() == 2,
        natural_value(check.labels@[0]@) == Some(id as nat),
        check.labels@[1]@ == reason@,
        growth(parse, Metric::AssertionFailure) == 1,
        parse.labels@.len() == 2,
        parse.labels@[0]@ == "parse_err"@,
        parse.labels@[1]@ == reason@,
{
    crate::text::lemma_decimal_round_trip(id as nat);
}

} // verus!
