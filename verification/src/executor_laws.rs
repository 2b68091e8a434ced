//! Laws of running tests: what becomes of a job from its start to its end, and what nodes are told.

use vstd::prelude::*;

use crate::executor::{
    node_source, to_test_request, ClusterExecution, Dispatch, Execution, Fetched, NextSecond,
    SecondStep,
};
use crate::http_api::{LoadGenerationMode, Target};
use crate::http_req::HttpReq;
use crate::jobs::{ErrorCode, JobStatus, JobTable};
use crate::request::Request;
use crate::request_specs::RequestSpecEnum;

verus! {

/// A job that still runs.
pub open spec fn runs(status: Option<JobStatus>) -> bool {
    status == Some(JobStatus::Starting) || status == Some(JobStatus::InProgress)
}

/// A job that was stopped or went wrong.
pub open spec fn halted(status: Option<JobStatus>) -> bool {
    status matches Some(s) && (s is Stopped || s is Error)
}

/// A test that was prepared is started and its job is in progress. One that was not changes
/// nothing. No other job changes.
pub proof fn lemma_started(
    job_id: String,
    prepared: Result<(), String>,
    jobs: &mut JobTable,
    r: Option<Execution>,
    name: &str,
    before: Option<JobStatus>,
    after: Option<JobStatus>,
)
    requires
        old(jobs).wf(),
        call_ensures(JobTable::get, (&*old(jobs), name), before),
        call_ensures(Execution::start, (job_id, prepared, jobs), r),
        call_ensures(JobTable::get, (&*final(jobs), name), after),
    ensures
        r is Some <==> prepared is Ok,
        r matches Some(run) ==> run.job_id@ == job_id@,
        prepared is Ok && name@ == job_id@ ==> after == Some(JobStatus::InProgress),
        prepared is Err || name@ != job_id@ ==> after == before,
{
    if prepared is Ok && name@ != job_id@ {
        assert(final(jobs).at(name@) == old(jobs).at(name@));
    }
}

/// A second is sent exactly where the job was not halted and its requests are there. A halted job
/// ends. A database that refused ends the test, and its job with it where that still runs; other
/// faults cost one second.
pub proof fn lemma_second(
    run: Execution,
    fetched: Fetched,
    jobs: &mut JobTable,
    r: SecondStep,
    id: &str,
    status: Option<JobStatus>,
    name: &str,
    before: Option<JobStatus>,
    after: Option<JobStatus>,
)
    requires
        old(jobs).wf(),
        id@ == run.job_id@,
        call_ensures(JobTable::get, (&*old(jobs), id), status),
        call_ensures(JobTable::get, (&*old(jobs), name), before),
        call_ensures(Execution::on_second, (&run, fetched, jobs), r),
        call_ensures(JobTable::get, (&*final(jobs), name), after),
    ensures
        r == SecondStep::Send <==> !halted(status) && fetched == Fetched::Requests,
        r == SecondStep::Skip <==> !halted(status) && fetched == Fetched::OtherError,
        name@ == id@ && runs(status) && fetched == Fetched::DatabaseError ==> after == Some(
            JobStatus::Error(ErrorCode::SqliteOpenFailed),
        ),
        !(name@ == id@ && runs(status) && fetched == Fetched::DatabaseError) ==> after == before,
{
    if name@ != id@ {
        assert(final(jobs).at(name@) == old(jobs).at(name@));
    }
}

/// A test that ends completes its job where that still runs; what was stopped or went wrong stays
/// so, and other jobs do not change.
pub proof fn lemma_finished(
    run: Execution,
    jobs: &mut JobTable,
    name: &str,
    before: Option<JobStatus>,
    after: Option<JobStatus>,
)
    requires
        old(jobs).wf(),
        call_ensures(JobTable::get, (&*old(jobs), name), before),
        call_ensures(Execution::finish, (&run, jobs), ()),
        call_ensures(JobTable::get, (&*final(jobs), name), after),
    ensures
        name@ == run.job_id@ && runs(before) ==> after == Some(JobStatus::Completed),
        !(name@ == run.job_id@ && runs(before)) ==> after == before,
{
    if name@ != run.job_id@ {
        assert(final(jobs).at(name@) == old(jobs).at(name@));
    }
}

/// In a cluster a test is started on a primary node only. On another its job ends with an error.
/// A bundle takes ten seconds for each unit of the time scale.
pub proof fn lemma_cluster_started(
    job_id: String,
    time_scale: u8,
    primary: bool,
    jobs: &mut JobTable,
    r: Option<ClusterExecution>,
    name: &str,
    before: Option<JobStatus>,
    after: Option<JobStatus>,
)
    requires
        time_scale > 0,
        old(jobs).wf(),
        call_ensures(JobTable::get, (&*old(jobs), name), before),
        call_ensures(ClusterExecution::start, (job_id, time_scale, primary, jobs), r),
        call_ensures(JobTable::get, (&*final(jobs), name), after),
    ensures
        r is Some <==> primary,
        r matches Some(run) ==> run.id() == job_id@ && run.items().len() == 0 && run.capacity()
            == time_scale * 10,
        name@ != job_id@ ==> after == before,
        name@ == job_id@ ==> after == Some(
            if primary {
                JobStatus::InProgress
            } else {
                JobStatus::Error(ErrorCode::SecondaryClusterNode)
            },
        ),
{
    if name@ != job_id@ {
        assert(final(jobs).at(name@) == old(jobs).at(name@));
    }
}

/// A bundle begins empty, unless its job was halted.
pub proof fn lemma_bundle_begun(
    run: &mut ClusterExecution,
    jobs: JobTable,
    id: &str,
    status: Option<JobStatus>,
    r: bool,
)
    requires
        old(run).wf(),
        jobs.wf(),
        id@ == old(run).id(),
        call_ensures(JobTable::get, (&jobs, id), status),
        call_ensures(ClusterExecution::begin, (run, &jobs), r),
    ensures
        r <==> !halted(status),
        r ==> final(run).items() =~= Seq::empty(),
        !r ==> final(run).items() == old(run).items(),
        final(run).id() == old(run).id() && final(run).capacity() == old(run).capacity(),
{
}

/// Seconds are taken into a bundle in order, until it is full, the plan is over or the database
/// refused; only the last ends the job.
pub proof fn lemma_bundle_filled(
    run: &mut ClusterExecution,
    next: NextSecond,
    jobs: &mut JobTable,
    more: bool,
    name: &str,
    before: Option<JobStatus>,
    after: Option<JobStatus>,
)
    requires
        old(run).wf(),
        old(run).items().len() < old(run).capacity(),
        old(jobs).wf(),
        call_ensures(JobTable::get, (&*old(jobs), name), before),
        call_ensures(ClusterExecution::on_second, (run, next, jobs), more),
        call_ensures(JobTable::get, (&*final(jobs), name), after),
    ensures
        match next {
            NextSecond::Requests(second) => {
                &&& final(run).items().len() == old(run).items().len() + 1
                &&& final(run).items().last() == second
                &&& final(run).items().drop_last() == old(run).items()
                &&& more <==> old(run).items().len() + 1 < old(run).capacity()
            },
            NextSecond::OtherError => more && final(run).items() == old(run).items(),
            NextSecond::DatabaseError => !more && final(run).items() == old(run).items(),
            NextSecond::Over => !more && final(run).items() == old(run).items(),
        },
        name@ == old(run).id() && runs(before) && next is DatabaseError ==> after == Some(
            JobStatus::Error(ErrorCode::SqliteOpenFailed),
        ),
        !(name@ == old(run).id() && runs(before) && next is DatabaseError) ==> after == before,
{
    if let NextSecond::Requests(second) = next {
        assert(final(run).items().drop_last() =~= old(run).items());
    }
    if name@ != old(run).id() {
        assert(final(jobs).at(name@) == old(jobs).at(name@));
    }
}

/// An empty bundle ends the test. Without nodes the job is stopped, and only then; where nodes are
/// not known the bundle is passed over. A bundle that is not full is the last.
pub proof fn lemma_bundle_dispatched(
    run: ClusterExecution,
    secondaries: Option<usize>,
    jobs: &mut JobTable,
    r: Dispatch,
    name: &str,
    before: Option<JobStatus>,
    after: Option<JobStatus>,
)
    requires
        run.wf(),
        old(jobs).wf(),
        secondaries matches Some(n) ==> n <= u32::MAX,
        call_ensures(JobTable::get, (&*old(jobs), name), before),
        call_ensures(ClusterExecution::dispatch, (&run, secondaries, jobs), r),
        call_ensures(JobTable::get, (&*final(jobs), name), after),
    ensures
        r is End <==> run.items() =~= Seq::empty(),
        run.items().len() > 0 && secondaries is None ==> r is Skip,
        run.items().len() > 0 && secondaries == Some(0usize) ==> r is Stopped,
        run.items().len() > 0 && secondaries is Some && secondaries->0 > 0 ==> r is Send
            && r->shares@.len() == secondaries->0,
        r matches Dispatch::Skip { last } ==> (last <==> run.items().len() < run.capacity()),
        r matches Dispatch::Send { shares, requests, last } ==> (last <==> run.items().len()
            < run.capacity()),
        name@ == run.id() && r is Stopped ==> after == Some(JobStatus::Stopped),
        !(name@ == run.id() && r is Stopped) ==> after == before,
{
    if let Dispatch::Send { shares, requests, last } = r {
        assert(shares.len() == shares@.len());
    }
    if name@ != run.id() {
        assert(final(jobs).at(name@) == old(jobs).at(name@));
    }
}

/// The end of a test in a cluster is the end of its job.
pub proof fn lemma_cluster_finished(
    run: ClusterExecution,
    jobs: &mut JobTable,
    name: &str,
    before: Option<JobStatus>,
    after: Option<JobStatus>,
)
    requires
        old(jobs).wf(),
        call_ensures(JobTable::get, (&*old(jobs), name), before),
        call_ensures(ClusterExecution::finish, (&run, jobs), ()),
        call_ensures(JobTable::get, (&*final(jobs), name), after),
    ensures
        name@ == run.id() && runs(before) ==> after == Some(JobStatus::Completed),
        !(name@ == run.id() && runs(before)) ==> after == before,
{
    if name@ != run.id() {
        assert(final(jobs).at(name@) == old(jobs).at(name@));
    }
}

/// A node takes its requests from the source of the test only where nodes share one.
pub proof fn lemma_node_source(
    shared: bool,
    provider: Option<RequestSpecEnum>,
    requests: Vec<HttpReq>,
    r: RequestSpecEnum,
)
    requires
        call_ensures(node_source, (shared, provider, requests), r),
    ensures
        shared && provider is Some ==> r == provider->0,
        !(shared && provider is Some) ==> r is RequestList && r->RequestList_0.data == requests,
{
}

/// A node is told a test of its own, as long as its shares, with its shares as the rates and
/// nothing to check.
pub proof fn lemma_told(
    qps: Vec<u32>,
    req: RequestSpecEnum,
    connections: Vec<u32>,
    target: Target,
    job_id: String,
    r: Request,
)
    requires
        qps@.len() <= u32::MAX,
        call_ensures(to_test_request, (qps, req, connections, &target, job_id), r),
    ensures
        r.name == Some(job_id),
        r.duration == qps@.len(),
        r.req == req,
        r.target.host@ == target.host@ && r.target.port == target.port,
        r.qps is ArraySpec && r.qps->ArraySpec_0.count_per_sec@ == qps@,
        r.concurrent_connection is ArraySpec
            && r.concurrent_connection->ArraySpec_0.count_per_sec@ == connections@,
        r.response_assertion is None,
        r.generation_mode == LoadGenerationMode::Immediate,
        r.connection_keep_alive.ttl == 0xffff_ffff,
        r.connection_keep_alive.max_request_per_connection == 0xffff_ffff,
{
}

} // verus!
