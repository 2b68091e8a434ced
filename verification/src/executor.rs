//! Running a test from its plan: on one node, or bundled for the nodes of a cluster.

use vstd::prelude::*;

use crate::distribution::{
    boundary, bundle_connections, bundle_qps, bundle_share, calculate_req_per_secondary, copies,
    firsts, lemma_boundaries, lemma_boundary_step, offered, Second,
};
use crate::generator::{ConcurrentConnectionRateSpec, RateSpecEnum};
use crate::http_api::{default_generation_mode, ConnectionKeepAlive, Target};
use crate::http_req::HttpReq;
use crate::jobs::{is_finished, ErrorCode, JobStatus, JobTable};
use crate::rate_spec::ArraySpec;
use crate::request::Request;
use crate::request_specs::RequestSpecEnum;

verus! {

/// How fetching the requests of a second went.
#[derive(Clone, Copy, Debug, PartialEq, Eq, Structural)]
pub enum Fetched {
    Requests,
    /// The database refused: it will not get better.
    DatabaseError,
    OtherError,
}

/// What to do with a second.
#[derive(Clone, Copy, Debug, PartialEq, Eq, Structural)]
pub enum SecondStep {
    /// Send its requests.
    Send,
    /// Leave it out.
    Skip,
    /// The test is over.
    End,
}

/// A test that a node runs.
#[derive(Debug)]
pub struct Execution {
    pub job_id: String,
}

impl Execution {
    /// Starts a test: its job is in progress. A test that could not be prepared is not started, and
    /// nothing becomes of its job.
    pub fn start(job_id: String, prepared: Result<(), String>, jobs: &mut JobTable) -> (r: Option<
        Execution,
    >)
        requires
            old(jobs).wf(),
        ensures
            final(jobs).wf(),
            match prepared {
                Ok(_) => {
                    &&& r matches Some(run) && run.job_id@ == job_id@
                    &&& final(jobs).at(job_id@) == Some(JobStatus::InProgress)
                    &&& others_kept(*old(jobs), *final(jobs), job_id@)
                },
                Err(_) => r is None && *final(jobs) == *old(jobs),
            },
    {
        if prepared.is_err() {
            return None;
        }
        jobs.insert(job_id.clone(), JobStatus::InProgress);
        Some(Execution { job_id })
    }

    /// What to do with a second whose requests were fetched. A stopped test ends; one whose
    /// database refused ends with an error.
    pub fn on_second(&self, fetched: Fetched, jobs: &mut JobTable) -> (r: SecondStep)
        requires
            old(jobs).wf(),
        ensures
            final(jobs).wf(),
            ({
                let id = self.job_id@;
                let stopped = is_halted(old(jobs).at(id));
                &&& r == (if stopped {
                    SecondStep::End
                } else {
                    match fetched {
                        Fetched::Requests => SecondStep::Send,
                        Fetched::DatabaseError => SecondStep::End,
                        Fetched::OtherError => SecondStep::Skip,
                    }
                })
                &&& final(jobs).at(id) == (if !stopped && fetched == Fetched::DatabaseError {
                    status_set(old(jobs).at(id), JobStatus::Error(ErrorCode::SqliteOpenFailed))
                } else {
                    old(jobs).at(id)
                })
            }),
            others_kept(*old(jobs), *final(jobs), self.job_id@),
    {
        if jobs.should_stop(self.job_id.as_str()) {
            return SecondStep::End;
        }
        match fetched {
            Fetched::Requests => SecondStep::Send,
            Fetched::DatabaseError => {
                jobs.set_job_status(
                    self.job_id.as_str(),
                    JobStatus::Error(ErrorCode::SqliteOpenFailed),
                );
                SecondStep::End
            },
            Fetched::OtherError => SecondStep::Skip,
        }
    }

    /// Ends the test: its job is completed, unless it was stopped or failed.
    pub fn finish(&self, jobs: &mut JobTable)
        requires
            old(jobs).wf(),
        ensures
            final(jobs).wf(),
            final(jobs).at(self.job_id@) == status_set(
                old(jobs).at(self.job_id@),
                JobStatus::Completed,
            ),
            others_kept(*old(jobs), *final(jobs), self.job_id@),
    {
        jobs.set_job_status(self.job_id.as_str(), JobStatus::Completed);
    }
}

/// Seconds in a bundle, per unit of the time scale.
pub const BUNDLE_SECONDS: usize = 10;

/// What came of the next second of a plan.
#[derive(Debug)]
pub enum NextSecond {
    /// Its rates and requests.
    Requests(Second),
    /// The database refused: it will not get better.
    DatabaseError,
    OtherError,
    /// The plan has no more seconds.
    Over,
}

/// What to do with a bundle.
#[derive(Debug)]
pub enum Dispatch {
    /// There are no more seconds: the test is over.
    End,
    /// There is no node to send it to, and the job was stopped: go on with the next bundle.
    Stopped,
    /// The nodes cannot be told now.
    Skip { last: bool },
    /// Send each node its shares of requests and connections, and all of them the requests to
    /// pick from.
    Send { shares: Vec<(Vec<u32>, Vec<u32>)>, requests: Vec<HttpReq>, last: bool },
}

/// A test that a primary node bundles for the nodes of its cluster.
#[derive(Debug)]
pub struct ClusterExecution {
    job_id: String,
    seconds: Vec<Second>,
    size: usize,
}

/// A job that is stopped or went wrong is not run on.
pub open spec fn is_halted(status: Option<JobStatus>) -> bool {
    status matches Some(s) && (s == JobStatus::Stopped || s is Error)
}

/// The status of a job after it was to be set: what is finished stays as it is.
pub open spec fn status_set(before: Option<JobStatus>, new: JobStatus) -> Option<JobStatus> {
    match before {
        Some(s) => if is_finished(s) {
            Some(s)
        } else {
            Some(new)
        },
        None => None,
    }
}

/// Only the status of one job changed.
pub open spec fn others_kept(before: JobTable, after: JobTable, id: Seq<char>) -> bool {
    forall|other: Seq<char>| other != id ==> #[trigger] after.at(other) == before.at(other)
}

/// The shares of node `i`: shares are handed out from the last to the first.
pub open spec fn node_gets(
    pair: (Vec<u32>, Vec<u32>),
    seconds: Seq<Second>,
    size: int,
    n: int,
    i: int,
) -> bool {
    &&& pair.0@.len() == size
    &&& pair.1@.len() == size
    &&& forall|p: int|
        0 <= p < size ==> #[trigger] pair.0@[p] == bundle_share(
            bundle_qps(seconds),
            n,
            n - 1 - i,
            p,
        )
    &&& forall|p: int|
        0 <= p < size ==> #[trigger] pair.1@[p] == bundle_share(
            bundle_connections(seconds),
            n,
            n - 1 - i,
            p,
        )
}

impl ClusterExecution {
    pub closed spec fn id(&self) -> Seq<char> {
        self.job_id@
    }

    /// The seconds of the bundle.
    pub closed spec fn items(&self) -> Seq<Second> {
        self.seconds@
    }

    /// How many seconds the bundle takes.
    pub closed spec fn capacity(&self) -> int {
        self.size as int
    }

    pub open spec fn wf(&self) -> bool {
        &&& 0 < self.capacity() <= 2550
        &&& self.items().len() <= self.capacity()
    }

    /// Starts a test. Only a primary node runs one; the job of another ends with an error.
    pub fn start(job_id: String, time_scale: u8, primary: bool, jobs: &mut JobTable) -> (r: Option<
        ClusterExecution,
    >)
        requires
            time_scale > 0,
            old(jobs).wf(),
        ensures
            final(jobs).wf(),
            others_kept(*old(jobs), *final(jobs), job_id@),
            r is Some == primary,
            r matches Some(run) ==> {
                &&& run.wf()
                &&& run.id() == job_id@
                &&& run.items().len() == 0
                &&& run.capacity() == 10 * time_scale
                &&& final(jobs).at(job_id@) == Some(JobStatus::InProgress)
            },
            r is None ==> final(jobs).at(job_id@) == Some(
                JobStatus::Error(ErrorCode::SecondaryClusterNode),
            ),
    {
        jobs.insert(job_id.clone(), JobStatus::InProgress);
        if primary {
            let size: usize = BUNDLE_SECONDS * time_scale as usize;
            Some(ClusterExecution { job_id, seconds: Vec::new(), size })
        } else {
            jobs.set_job_status(
                job_id.as_str(),
                JobStatus::Error(ErrorCode::SecondaryClusterNode),
            );
            None
        }
    }

    /// Begins a bundle, unless the job was stopped.
    pub fn begin(&mut self, jobs: &JobTable) -> (r: bool)
        requires
            old(self).wf(),
            jobs.wf(),
        ensures
            r == !is_halted(jobs.at(old(self).id())),
            final(self).wf(),
            final(self).id() == old(self).id(),
            final(self).capacity() == old(self).capacity(),
            r ==> final(self).items().len() == 0,
            !r ==> final(self).items() == old(self).items(),
    {
        if jobs.should_stop(self.job_id.as_str()) {
            return false;
        }
        self.seconds = Vec::new();
        true
    }

    /// Takes the next second into the bundle, and says whether another is wanted. The bundle is
    /// done when it is full, when the plan is over, and when the database refused.
    pub fn on_second(&mut self, next: NextSecond, jobs: &mut JobTable) -> (more: bool)
        requires
            old(self).wf(),
            old(self).items().len() < old(self).capacity(),
            old(jobs).wf(),
        ensures
            final(self).wf(),
            final(self).id() == old(self).id(),
            final(self).capacity() == old(self).capacity(),
            final(jobs).wf(),
            others_kept(*old(jobs), *final(jobs), old(self).id()),
            final(jobs).at(old(self).id()) == (if next is DatabaseError {
                status_set(
                    old(jobs).at(old(self).id()),
                    JobStatus::Error(ErrorCode::SqliteOpenFailed),
                )
            } else {
                old(jobs).at(old(self).id())
            }),
            final(self).items() == (match next {
                NextSecond::Requests(second) => old(self).items().push(second),
                _ => old(self).items(),
            }),
            more == (match next {
                NextSecond::Requests(_) => final(self).items().len() < final(self).capacity(),
                NextSecond::OtherError => true,
                _ => false,
            }),
    {
        match next {
            NextSecond::Requests(second) => {
                self.seconds.push(second);
                self.seconds.len() < self.size
            },
            NextSecond::DatabaseError => {
                jobs.set_job_status(
                    self.job_id.as_str(),
                    JobStatus::Error(ErrorCode::SqliteOpenFailed),
                );
                false
            },
            NextSecond::OtherError => true,
            NextSecond::Over => false,
        }
    }

    /// What to do with the bundle, with so many nodes to send it to; none where they are not
    /// known. A bundle that could not be filled is the last.
    pub fn dispatch(&self, secondaries: Option<usize>, jobs: &mut JobTable) -> (r: Dispatch)
        requires
            self.wf(),
            old(jobs).wf(),
            secondaries matches Some(n) ==> n <= u32::MAX,
        ensures
            final(jobs).wf(),
            others_kept(*old(jobs), *final(jobs), self.id()),
            final(jobs).at(self.id()) == (if self.items().len() > 0 && secondaries == Some(
                0usize,
            ) {
                Some(JobStatus::Stopped)
            } else {
                old(jobs).at(self.id())
            }),
            r is End == (self.items().len() == 0),
            r is Stopped == (self.items().len() > 0 && secondaries == Some(0usize)),
            r is Skip == (self.items().len() > 0 && secondaries is None),
            match r {
                Dispatch::Skip { last } => last == (self.items().len() < self.capacity()),
                Dispatch::Send { shares, requests, last } => {
                    &&& last == (self.items().len() < self.capacity())
                    &&& copies(requests@, firsts(offered(self.items())))
                    &&& secondaries == Some(shares@.len() as usize)
                    &&& forall|i: int|
                        0 <= i < shares@.len() ==> node_gets(
                            #[trigger] shares@[i],
                            self.items(),
                            self.capacity(),
                            shares@.len() as int,
                            i,
                        )
                },
                _ => true,
            },
    {
        let len: usize = self.seconds.len();
        if len == 0 {
            return Dispatch::End;
        }
        let last = len < self.size;
        let n: usize = match secondaries {
            Some(n) => n,
            None => return Dispatch::Skip { last },
        };
        if n == 0 {
            jobs.insert(self.job_id.clone(), JobStatus::Stopped);
            return Dispatch::Stopped;
        }
        let (qps, requests, connections) = calculate_req_per_secondary(&self.seconds, self.size, n);
        let mut qps = qps;
        let mut connections = connections;
        let ghost all_qps = qps@;
        let ghost all_connections = connections@;
        let mut shares: Vec<(Vec<u32>, Vec<u32>)> = Vec::new();
        while shares.len() < n
            invariant
                shares@.len() <= n,
                all_qps.len() == n,
                all_connections.len() == n,
                qps@ == all_qps.take(n - shares@.len()),
                connections@ == all_connections.take(n - shares@.len()),
                forall|i: int|
                    0 <= i < shares@.len() ==> (#[trigger] shares@[i]).0 == all_qps[n - 1 - i]
                        && shares@[i].1 == all_connections[n - 1 - i],
            decreases n - shares@.len(),
        {
            match (qps.pop(), connections.pop()) {
                (Some(q), Some(c)) => {
                    assert(qps@ =~= all_qps.take(n - shares@.len() - 1));
                    assert(connections@ =~= all_connections.take(n - shares@.len() - 1));
                    shares.push((q, c));
                },
                _ => {
                    assert(false);
                    return Dispatch::End;
                },
            }
        }
        proof {
            assert forall|i: int| 0 <= i < shares@.len() implies node_gets(
                #[trigger] shares@[i],
                self.items(),
                self.capacity(),
                n as int,
                i,
            ) by {
                let j = n - 1 - i;
                assert(all_qps[j]@.len() == self.size);
                assert(all_connections[j]@.len() == self.size);
                assert(shares@[i].0@ == all_qps[j]@);
                assert(shares@[i].1@ == all_connections[j]@);
            }
        }
        Dispatch::Send { shares, requests, last }
    }

    /// Ends the test: its job is completed, unless it was stopped or failed.
    pub fn finish(&self, jobs: &mut JobTable)
        requires
            old(jobs).wf(),
        ensures
            final(jobs).wf(),
            others_kept(*old(jobs), *final(jobs), self.id()),
            final(jobs).at(self.id()) == status_set(old(jobs).at(self.id()), JobStatus::Completed),
    {
        jobs.set_job_status(self.job_id.as_str(), JobStatus::Completed);
    }
}

/// Where a node takes its requests from: the source of the test where nodes can share it, the
/// requests of the bundle otherwise.
pub fn node_source(
    shared: bool,
    provider: Option<RequestSpecEnum>,
    requests: Vec<HttpReq>,
) -> (r: RequestSpecEnum)
    ensures
        match provider {
            Some(source) if shared => r == source,
            _ => r matches RequestSpecEnum::RequestList(list) && list.data == requests,
        },
{
    match provider {
        Some(source) if shared => source,
        _ => RequestSpecEnum::from(requests),
    }
}

/// What a node is told of a bundle: a test of its own, with the shares of the node as its rates.
pub fn to_test_request(
    qps: Vec<u32>,
    req: RequestSpecEnum,
    connection_count: Vec<u32>,
    target: &Target,
    job_id: String,
) -> (r: Request)
    requires
        qps@.len() <= u32::MAX,
    ensures
        r.name == Some(job_id),
        r.duration == qps@.len(),
        r.req == req,
        r.qps matches RateSpecEnum::ArraySpec(a) && a.count_per_sec@ == qps@,
        r.concurrent_connection matches ConcurrentConnectionRateSpec::ArraySpec(a)
            && a.count_per_sec@ == connection_count@,
        r.target.host@ == target.host@,
        r.target.port == target.port,
        r.target.protocol == target.protocol,
        r.connection_keep_alive.ttl == u32::MAX,
        r.connection_keep_alive.max_request_per_connection == u32::MAX,
        r.response_assertion is None,
        r.generation_mode is Immediate,
{
    let duration: u32 = qps.len() as u32;
    Request {
        name: Some(job_id),
        duration,
        target: target.copied(),
        req,
        qps: RateSpecEnum::ArraySpec(ArraySpec::new(qps)),
        concurrent_connection: ConcurrentConnectionRateSpec::ArraySpec(
            ArraySpec::new(connection_count),
        ),
        connection_keep_alive: ConnectionKeepAlive::default(),
        response_assertion: None,
        generation_mode: default_generation_mode(),
    }
}

/// How many requests the first `k` nodes send in second `p` of a bundle.
pub open spec fn given(shares: Seq<(Vec<u32>, Vec<u32>)>, p: int, k: int) -> int
    decreases k,
{
    if k <= 0 {
        0
    } else {
        given(shares, p, k - 1) + shares[k - 1].0@[p]
    }
}

proof fn lemma_given(
    shares: Seq<(Vec<u32>, Vec<u32>)>,
    seconds: Seq<Second>,
    size: int,
    p: int,
    k: int,
)
    requires
        0 <= p < seconds.len() <= size,
        0 <= k <= shares.len(),
        forall|i: int|
            0 <= i < shares.len() ==> node_gets(
                #[trigger] shares[i],
                seconds,
                size,
                shares.len() as int,
                i,
            ),
    ensures
        given(shares, p, k) == boundary(
            seconds[p].0 as int,
            shares.len() as int,
            shares.len() as int,
        ) - boundary(seconds[p].0 as int, shares.len() as int, shares.len() - k),
    decreases k,
{
    if k > 0 {
        lemma_given(shares, seconds, size, p, k - 1);
        let n = shares.len() as int;
        lemma_boundary_step(seconds[p].0 as int, n, n - k);
        assert(node_gets(shares[k - 1], seconds, size, n, k - 1));
        assert(bundle_qps(seconds)[p] == seconds[p].0);
    }
}

/// Together the nodes send what the plan asks for, in every second of a bundle.
pub proof fn lemma_bundle_adds_up(
    shares: Seq<(Vec<u32>, Vec<u32>)>,
    seconds: Seq<Second>,
    size: int,
    p: int,
)
    requires
        shares.len() > 0,
        0 <= p < seconds.len() <= size,
        forall|i: int|
            0 <= i < shares.len() ==> node_gets(
                #[trigger] shares[i],
                seconds,
                size,
                shares.len() as int,
                i,
            ),
    ensures
        given(shares, p, shares.len() as int) == seconds[p].0,
{
    let n = shares.len() as int;
    lemma_given(shares, seconds, size, p, n);
    lemma_boundaries(seconds[p].0 as int, n, 0);
}

/// A job that was stopped or went wrong stays so, whatever status its execution gives it at the
/// end; one that is in progress is completed.
pub proof fn lemma_end_status(before: Option<JobStatus>)
    ensures
        is_halted(before) ==> status_set(before, JobStatus::Completed) == before,
        before == Some(JobStatus::InProgress) ==> status_set(before, JobStatus::Completed) == Some(
            JobStatus::Completed,
        ),
{
}

} // verus!
