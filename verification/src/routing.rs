//! What a node does with what it is asked: do it, hand it to the primary node, or refuse.

use vstd::prelude::*;
use vstd::string::StringExecFns;

use crate::http_api::{
    params_text, GenericError, JobStatusQueryParams, Response, PATH_FILE_UPLOAD, PATH_JOB_STATUS,
    PATH_DATA_FILES, PATH_REQUEST_DATA_FILE_DOWNLOAD, PATH_STOP_JOB,
};
use crate::job_ids::{job_id, job_id_text, name_text, sub_id_text, sub_job_id};
use crate::jobs::{ErrorCode, JobStatus};
use crate::lua::{function_outcome, verify_lua_chunk};
use crate::random::is_uuid;
use crate::request::{MultiRequest, Request};
use crate::request_specs::RequestSpecEnum;
use crate::response_assert::ResponseAssertion;
use crate::schema::{DataSchema, SchemaView};
use crate::text::{decimal, decimal_text, same_text};

verus! {

// ---------------------------------------------------------------------------------------------
// Checks before a test is started
// ---------------------------------------------------------------------------------------------

/// A schema yields data: it describes an object without a name.
pub open spec fn yields_data(schema: SchemaView) -> bool {
    schema matches SchemaView::Object(None, _)
}

/// Whether a schema yields data.
fn has_data(schema: &DataSchema) -> (r: bool)
    ensures
        r == yields_data(schema@),
{
    broadcast use {
        crate::schema::lemma_object_schema_view,
        crate::schema::lemma_array_schema_view,
    };

    match schema {
        DataSchema::Object(None, _) => true,
        _ => false,
    }
}

/// What is wrong with the source of the requests of a test. `file_exists` is whether its request
/// file is there.
pub open spec fn source_fault(req: RequestSpecEnum, file_exists: bool) -> Option<ErrorCode> {
    match req {
        RequestSpecEnum::RequestFile(_) => if file_exists {
            None
        } else {
            Some(ErrorCode::RequestFileNotFound)
        },
        RequestSpecEnum::RandomDataRequest(random) => if random.body_schema is Some
            && !yields_data(random.body_schema->0@) {
            Some(ErrorCode::BodyGenerationFailure)
        } else if random.uri_param_schema is Some && !yields_data(random.uri_param_schema->0@) {
            Some(ErrorCode::UriParamGenerationFailure)
        } else {
            None
        },
        _ => None,
    }
}

/// Checks the source of the requests of a test.
pub fn check_source(req: &RequestSpecEnum, file_exists: bool) -> (r: Option<ErrorCode>)
    ensures
        r == source_fault(*req, file_exists),
{
    match req {
        RequestSpecEnum::RequestFile(_) => {
            if !file_exists {
                return Some(ErrorCode::RequestFileNotFound);
            }
        },
        RequestSpecEnum::RandomDataRequest(random) => {
            if let Some(schema) = &random.body_schema {
                if !has_data(schema) {
                    return Some(ErrorCode::BodyGenerationFailure);
                }
            }
            if let Some(schema) = &random.uri_param_schema {
                if !has_data(schema) {
                    return Some(ErrorCode::UriParamGenerationFailure);
                }
            }
        },
        _ => {},
    }
    None
}

/// Lines with line breaks between them.
pub open spec fn lines_text(lines: Seq<String>) -> Seq<char>
    decreases lines.len(),
{
    if lines.len() == 0 {
        Seq::empty()
    } else if lines.len() == 1 {
        lines[0]@
    } else {
        lines_text(lines.drop_last()) + seq!['\n'] + lines.last()@
    }
}

/// Joins lines.
pub fn join_lines(lines: &Vec<String>) -> (r: String)
    ensures
        r@ == lines_text(lines@),
{
    let mut r = String::new();
    let mut i: usize = 0;
    assert(lines@.take(0) =~= Seq::empty());
    while i < lines.len()
        invariant
            i <= lines@.len(),
            r@ == lines_text(lines@.take(i as int)),
        decreases lines@.len() - i,
    {
        let ghost before = r@;
        if i > 0 {
            r.push('\n');
        }
        r.append(lines[i].as_str());
        proof {
            let taken = lines@.take(i + 1);
            assert(taken.drop_last() =~= lines@.take(i as int));
            assert(taken.last() == lines@[i as int]);
            if i == 0 {
                assert(lines@.take(0) =~= Seq::empty());
                assert(taken[0] == lines@[0]);
                assert(r@ =~= lines@[0]@);
            }
            assert(r@ =~= lines_text(taken));
        }
        i += 1;
    }
    assert(lines@.take(i as int) =~= lines@);
    r
}

/// The lines of the Lua function that checks responses.
pub open spec fn lua_lines(checks: Option<ResponseAssertion>) -> Option<Seq<String>> {
    match checks {
        Some(c) => match c.lua_assertion {
            Some(lines) => Some(lines@),
            None => None,
        },
        None => None,
    }
}

/// Looking at the Lua function that checks responses can lead to this: it is one, or there is none
/// to look at (`fine`); or it is none.
pub open spec fn lua_outcome(checks: Option<ResponseAssertion>, fine: bool) -> bool {
    match lua_lines(checks) {
        Some(lines) => function_outcome(lines_text(lines), fine),
        None => fine,
    }
}

/// The Lua function that checks responses.
pub fn lua_chunk(checks: &Option<ResponseAssertion>) -> (r: Option<String>)
    ensures
        match lua_lines(*checks) {
            Some(lines) => r matches Some(chunk) && chunk@ == lines_text(lines),
            None => r is None,
        },
{
    match checks {
        Some(c) => match &c.lua_assertion {
            Some(lines) => Some(join_lines(lines)),
            None => None,
        },
        None => None,
    }
}

/// What the checks of a test lead to: the fault of the source of its requests first, then that of
/// its Lua function, where looking at that one gave `lua`.
pub open spec fn check_outcome(fault: Option<ErrorCode>, lua: Option<Result<(), String>>) -> Result<
    (),
    ErrorCode,
> {
    match (fault, lua) {
        (Some(fault), _) => Err(fault),
        (None, Some(Err(_))) => Err(ErrorCode::LuaParseFailure),
        _ => Ok(()),
    }
}

/// What the checks of a test lead to.
pub fn conclude(fault: Option<ErrorCode>, lua: Option<Result<(), String>>) -> (r: Result<
    (),
    ErrorCode,
>)
    ensures
        r == check_outcome(fault, lua),
{
    if let Some(fault) = fault {
        return Err(fault);
    }
    match lua {
        Some(Err(_)) => Err(ErrorCode::LuaParseFailure),
        _ => Ok(()),
    }
}

/// Checks a test before it is started. `file_exists` is whether its request file is there. A Lua
/// function is looked at only where the source of the requests is fine.
pub fn pre_check(request: &Request, file_exists: bool) -> (r: Result<(), ErrorCode>)
    ensures
        source_fault(request.req, file_exists) matches Some(fault) ==> r == Err::<(), ErrorCode>(
            fault,
        ),
        source_fault(request.req, file_exists) is None ==> lua_outcome(
            request.response_assertion,
            r is Ok,
        ) && (r matches Err(fault) ==> fault == ErrorCode::LuaParseFailure),
{
    if let Some(fault) = check_source(&request.req, file_exists) {
        return conclude(Some(fault), None);
    }
    let lua: Option<Result<(), String>> = match lua_chunk(&request.response_assertion) {
        Some(chunk) => Some(verify_lua_chunk(chunk.as_str())),
        None => None,
    };
    conclude(None, lua)
}

// ---------------------------------------------------------------------------------------------
// Tests
// ---------------------------------------------------------------------------------------------

/// What a node knows of its cluster.
#[derive(Clone, Copy, Debug, PartialEq, Eq, Structural)]
pub struct ClusterView {
    pub active: bool,
    pub primary: bool,
    /// The number of secondary nodes, where it is known.
    pub secondaries: Option<usize>,
}

/// What to do with a test.
#[derive(Debug)]
pub enum TestStep {
    /// Answer.
    Respond(Response),
    /// Start it, and answer.
    Start(Request, Response),
    /// Hand it to the primary node.
    Forward(Request),
}

/// The test under its id.
pub open spec fn under_id(before: Request, after: Request, id: Seq<char>) -> bool {
    &&& after.name is Some && after.name->0@ == id
    &&& after == (Request { name: after.name, ..before })
}

/// An answer with the given id and status.
pub open spec fn answers(r: Response, id: Seq<char>, status: JobStatus) -> bool {
    r.job_id@ == id && r.status == status
}

/// What a node that works alone does with a test under its id, where the checks led to `checked`.
pub fn start(request: Request, id: String, checked: Result<(), ErrorCode>) -> (r: TestStep)
    ensures
        match checked {
            Ok(_) => r matches TestStep::Start(test, answer) && under_id(request, test, id@)
                && answers(answer, id@, JobStatus::Starting),
            Err(e) => r matches TestStep::Respond(answer) && answers(
                answer,
                id@,
                JobStatus::Error(e),
            ),
        },
{
    match checked {
        Ok(_) => {
            let mut request = request;
            request.name = Some(id.clone());
            TestStep::Start(request, Response::new(id, JobStatus::Starting))
        },
        Err(e) => TestStep::Respond(Response::new(id, JobStatus::Error(e))),
    }
}

/// What a node that works alone does with a test.
pub fn handle_request(request: Request, file_exists: bool) -> (r: TestStep)
    ensures
        exists|fresh: Seq<char>| #[trigger]
            is_uuid(fresh) && ({
                let id = job_id_text(name_text(request.name), fresh);
                match r {
                    TestStep::Start(test, answer) => {
                        &&& source_fault(request.req, file_exists) is None
                        &&& lua_outcome(request.response_assertion, true)
                        &&& under_id(request, test, id)
                        &&& answers(answer, id, JobStatus::Starting)
                    },
                    TestStep::Respond(answer) => match source_fault(request.req, file_exists) {
                        Some(fault) => answers(answer, id, JobStatus::Error(fault)),
                        None => lua_outcome(request.response_assertion, false) && answers(
                            answer,
                            id,
                            JobStatus::Error(ErrorCode::LuaParseFailure),
                        ),
                    },
                    TestStep::Forward(_) => false,
                }
            }),
{
    let id = job_id(&request.name);
    let checked = pre_check(&request, file_exists);
    start(request, id, checked)
}

/// What a node of a cluster does with a test under its id, where the checks led to `checked`. Only
/// the primary node starts tests, and only where there are nodes to run them.
pub fn route(
    request: Request,
    id: String,
    cluster: ClusterView,
    checked: Result<(), ErrorCode>,
) -> (r: TestStep)
    ensures
        if !cluster.active {
            r matches TestStep::Respond(answer) && answers(
                answer,
                id@,
                JobStatus::Error(ErrorCode::InactiveCluster),
            )
        } else if !cluster.primary {
            r matches TestStep::Forward(test) && under_id(request, test, id@)
        } else if cluster.secondaries is None || cluster.secondaries == Some(0usize) {
            r matches TestStep::Respond(answer) && answers(
                answer,
                id@,
                JobStatus::Error(ErrorCode::NoSecondary),
            )
        } else {
            match checked {
                Ok(_) => r matches TestStep::Start(test, answer) && under_id(request, test, id@)
                    && answers(answer, id@, JobStatus::Starting),
                Err(e) => r matches TestStep::Respond(answer) && answers(
                    answer,
                    id@,
                    JobStatus::Error(e),
                ),
            }
        },
{
    if !cluster.active {
        return TestStep::Respond(Response::new(id, JobStatus::Error(ErrorCode::InactiveCluster)));
    }
    if !cluster.primary {
        let mut request = request;
        request.name = Some(id);
        return TestStep::Forward(request);
    }
    let alone = match cluster.secondaries {
        Some(n) => n == 0,
        None => true,
    };
    if alone {
        return TestStep::Respond(Response::new(id, JobStatus::Error(ErrorCode::NoSecondary)));
    }
    start(request, id, checked)
}

/// The answer to a test that was handed to the primary node: that of the primary node, or that
/// something went wrong.
pub fn forwarded(id: String, answer: Option<Response>) -> (r: Response)
    ensures
        match answer {
            Some(answer) => r == answer,
            None => answers(r, id@, JobStatus::Error(ErrorCode::Others)),
        },
{
    match answer {
        Some(answer) => answer,
        None => unknown_error_resp(id),
    }
}

/// The answer where something went wrong.
pub fn unknown_error_resp(job_id: String) -> (r: Response)
    ensures
        answers(r, job_id@, JobStatus::Error(ErrorCode::Others)),
{
    Response::new(job_id, JobStatus::Error(ErrorCode::Others))
}

/// The tests of `list` from the first one on, each under its id.
pub open spec fn under_sub_ids(list: Seq<Request>, started: Seq<Request>, id: Seq<char>) -> bool {
    &&& started.len() <= list.len()
    &&& forall|i: int|
        0 <= i < started.len() ==> under_id(
            list[i],
            #[trigger] started[i],
            sub_id_text(id, i as nat),
        )
}

/// All checks before position `i` succeeded.
pub open spec fn checked_before(checks: Seq<Result<(), ErrorCode>>, i: int) -> bool {
    forall|j: int| 0 <= j < i ==> (#[trigger] checks[j]) is Ok
}

/// The tests were checked one after the other, all of them, or up to the first that failed.
pub open spec fn checked_up(checks: Seq<Result<(), ErrorCode>>, n: int) -> bool {
    ||| checks.len() == n
    ||| 0 < checks.len() < n && checks.last() is Err
}

/// What a node that works alone does with several tests under an id, where the checks of each led
/// to `checks`: it starts them one after the other, up to the first whose checks failed.
pub fn start_all(
    requests: Vec<Request>,
    id: String,
    checks: &Vec<Result<(), ErrorCode>>,
) -> (r: (Vec<Request>, Response))
    requires
        checked_up(checks@, requests@.len() as int),
    ensures
        under_sub_ids(requests@, r.0@, id@),
        checked_before(checks@, r.0@.len() as int),
        if r.0@.len() == requests@.len() {
            answers(r.1, id@, JobStatus::Starting)
        } else {
            checks@[r.0@.len() as int] matches Err(e) && answers(r.1, id@, JobStatus::Error(e))
        },
{
    let ghost all = requests@;
    let mut left = requests;
    let mut started: Vec<Request> = Vec::new();
    let mut i: usize = 0;
    while i < checks.len()
        invariant
            i <= checks@.len(),
            all == requests@,
            checks@.len() <= all.len(),
            left@ == all.skip(i as int),
            started@.len() == i,
            under_sub_ids(all, started@, id@),
            checked_before(checks@, i as int),
        decreases checks@.len() - i,
    {
        if let Err(e) = checks[i] {
            return (started, Response::new(id, JobStatus::Error(e)));
        }
        let mut request = left.remove(0);
        assert(request == all[i as int]);
        assert(left@ =~= all.skip(i + 1));
        request.name = Some(sub_job_id(id.as_str(), i));
        let ghost before = started@;
        started.push(request);
        proof {
            assert forall|k: int| 0 <= k < started@.len() implies under_id(
                all[k],
                #[trigger] started@[k],
                sub_id_text(id@, k as nat),
            ) by {
                if k < i {
                    assert(started@[k] == before[k]);
                }
            }
        }
        i += 1;
    }
    assert(checks@.len() == all.len()) by {
        if checks@.len() > 0 {
            assert(checks@[checks@.len() - 1] is Ok);
        }
    }
    (started, Response::new(id, JobStatus::Starting))
}

/// What a node that works alone does with several tests. `files_exist` is whether the request file
/// of each is there.
pub fn handle_multi_request(requests: MultiRequest, files_exist: &Vec<bool>) -> (r: (
    Vec<Request>,
    Response,
))
    requires
        files_exist@.len() == requests.requests@.len(),
    ensures
        exists|fresh: Seq<char>| #[trigger]
            is_uuid(fresh) && ({
                let id = job_id_text(name_text(requests.name), fresh);
                &&& under_sub_ids(requests.requests@, r.0@, id)
                &&& forall|i: int|
                    0 <= i < r.0@.len() ==> source_fault(
                        (#[trigger] requests.requests@[i]).req,
                        files_exist@[i],
                    ) is None && lua_outcome(
                        requests.requests@[i].response_assertion,
                        true,
                    )
                &&& if r.0@.len() == requests.requests@.len() {
                    answers(r.1, id, JobStatus::Starting)
                } else {
                    let refused = requests.requests@[r.0@.len() as int];
                    match source_fault(refused.req, files_exist@[r.0@.len() as int]) {
                        Some(fault) => answers(r.1, id, JobStatus::Error(fault)),
                        None => lua_outcome(refused.response_assertion, false) && answers(
                            r.1,
                            id,
                            JobStatus::Error(ErrorCode::LuaParseFailure),
                        ),
                    }
                }
            }),
{
    let id = job_id(&requests.name);
    let ghost all = requests.requests@;
    let list = requests.requests;
    let mut checks: Vec<Result<(), ErrorCode>> = Vec::new();
    let mut i: usize = 0;
    let mut fine = true;
    while fine && i < list.len()
        invariant
            i <= list@.len(),
            list@ == all,
            files_exist@.len() == all.len(),
            checks@.len() == i,
            !fine ==> i > 0 && checks@[i - 1] is Err,
            forall|k: int|
                0 <= k < i ==> match source_fault(all[k].req, files_exist@[k]) {
                    Some(fault) => #[trigger] checks@[k] == Err::<(), ErrorCode>(fault),
                    None => lua_outcome(all[k].response_assertion, checks@[k] is Ok) && (
                    checks@[k] matches Err(fault) ==> fault == ErrorCode::LuaParseFailure),
                },
        decreases list@.len() - i,
    {
        let checked = pre_check(&list[i], files_exist[i]);
        fine = checked.is_ok();
        checks.push(checked);
        i += 1;
    }
    let r = start_all(list, id, &checks);
    proof {
        let n = r.0@.len() as int;
        assert forall|k: int| 0 <= k < n implies source_fault(
            (#[trigger] all[k]).req,
            files_exist@[k],
        ) is None && lua_outcome(all[k].response_assertion, true) by {
            assert(checks@[k] is Ok);
        }
        if n < all.len() {
            assert(checks@[n] is Err);
        }
    }
    r
}

/// What to do with several tests.
#[derive(Debug)]
pub enum MultiStep {
    /// Answer.
    Respond(Response),
    /// Start them, and answer.
    Start(Vec<Request>, Response),
    /// Hand them to the primary node.
    Forward(MultiRequest),
}

/// What a node of a cluster does with several tests under an id. The primary node starts them all.
pub fn route_multi(requests: MultiRequest, id: String, active: bool, primary: bool) -> (r:
    MultiStep)
    ensures
        if !active {
            r matches MultiStep::Respond(answer) && answers(
                answer,
                id@,
                JobStatus::Error(ErrorCode::InactiveCluster),
            )
        } else if primary {
            r matches MultiStep::Start(tests, answer) && tests@.len() == requests.requests@.len()
                && under_sub_ids(requests.requests@, tests@, id@) && answers(
                answer,
                id@,
                JobStatus::Starting,
            )
        } else {
            r matches MultiStep::Forward(tests) && tests.name is Some && tests.name->0@ == id@
                && tests.requests == requests.requests
        },
{
    if !active {
        return MultiStep::Respond(Response::new(id, JobStatus::Error(ErrorCode::InactiveCluster)));
    }
    if primary {
        let mut checks: Vec<Result<(), ErrorCode>> = Vec::new();
        let n: usize = requests.requests.len();
        let mut i: usize = 0;
        while i < n
            invariant
                i <= n,
                checks@.len() == i,
                checked_before(checks@, i as int),
            decreases n - i,
        {
            checks.push(Ok(()));
            i += 1;
        }
        let (tests, answer) = start_all(requests.requests, id, &checks);
        MultiStep::Start(tests, answer)
    } else {
        MultiStep::Forward(MultiRequest { name: Some(id), requests: requests.requests })
    }
}

// ---------------------------------------------------------------------------------------------
// Other requests
// ---------------------------------------------------------------------------------------------

/// What to do with a request that is not a test.
#[derive(Debug)]
pub enum Route {
    Refuse(GenericError),
    Local,
    Forward,
}

/// The message where the cluster is not active.
pub const INACTIVE_CLUSTER: &'static str = "{\"Error\":\"InactiveCluster\"}";

/// The error where the cluster is not active.
pub fn inactive_cluster_error() -> (r: GenericError)
    ensures
        r.error_code == 404,
        r.message@ == INACTIVE_CLUSTER@,
        r.data.entries().len() == 0,
{
    GenericError::new(INACTIVE_CLUSTER, 404)
}

/// What a node of a cluster does with a request that is not a test: the primary node does what it
/// is asked.
pub fn route_other(active: bool, primary: bool) -> (r: Route)
    ensures
        if !active {
            r matches Route::Refuse(e) && e.error_code == 404 && e.message@ == INACTIVE_CLUSTER@
        } else if primary {
            r is Local
        } else {
            r is Forward
        },
{
    if !active {
        Route::Refuse(inactive_cluster_error())
    } else if primary {
        Route::Local
    } else {
        Route::Forward
    }
}

/// The address of the first of the primary nodes, where it has one.
pub fn primary_uri(primaries: &Option<Vec<Option<String>>>) -> (r: Result<String, GenericError>)
    ensures
        match primaries {
            Some(list) => if list@.len() > 0 && list@[0] is Some {
                r matches Ok(uri) && uri@ == list@[0]->0@
            } else {
                r is Err
            },
            None => r is Err,
        },
        r matches Err(e) ==> e.error_code == 500 && e.message@
            == "No primary or invalid ServiceInstance URI"@ && e.data.entries().len() == 0,
{
    if let Some(list) = primaries {
        if list.len() > 0 {
            if let Some(uri) = &list[0] {
                return Ok(uri.clone());
            }
        }
    }
    Err(GenericError::internal_500("No primary or invalid ServiceInstance URI"))
}

/// Where a test is handed to the primary node.
#[derive(Debug)]
pub enum Handover {
    /// To this address.
    To(String),
    /// To nobody: there is no primary node, and this is the answer.
    Nobody(Response),
    /// To nobody, for this reason.
    Failed(String),
}

/// Where a test is handed to. `path` is `test` for one test and `tests` for several.
pub fn handover(primaries: &Option<Vec<Option<String>>>, path: &str) -> (r: Handover)
    ensures
        match primaries {
            None => r matches Handover::Failed(e) && e@ == "Primary returns None"@,
            Some(list) => if list@.len() == 0 {
                r matches Handover::Nobody(answer) && answers(
                    answer,
                    "error"@,
                    JobStatus::Error(ErrorCode::Others),
                )
            } else {
                match list@[0] {
                    Some(uri) => r matches Handover::To(to) && to@ == uri@ + seq!['/'] + path@,
                    None => r matches Handover::Failed(e) && e@ == "Invalid ServiceInstance URI"@,
                }
            },
        },
{
    match primaries {
        None => Handover::Failed("Primary returns None".to_owned()),
        Some(list) => if list.len() == 0 {
            Handover::Nobody(unknown_error_resp("error".to_owned()))
        } else {
            match &list[0] {
                Some(uri) => {
                    let mut to = uri.clone();
                    to.push('/');
                    to.append(path);
                    Handover::To(to)
                },
                None => Handover::Failed("Invalid ServiceInstance URI".to_owned()),
            }
        },
    }
}

/// Where a node asks the primary node to stop a job.
pub fn stop_uri(uri: &str, job_id: &str) -> (r: String)
    ensures
        r@ == uri@ + PATH_STOP_JOB@ + seq!['/'] + job_id@,
{
    let mut r = uri.to_owned();
    r.append(PATH_STOP_JOB);
    r.push('/');
    r.append(job_id);
    r
}

/// Where a node asks the primary node for the state of jobs.
pub fn status_uri(uri: &str, params: &JobStatusQueryParams) -> (r: String)
    ensures
        r@ == uri@ + PATH_JOB_STATUS@ + seq!['?'] + params_text(params@),
{
    let mut r = uri.to_owned();
    r.append(PATH_JOB_STATUS);
    r.push('?');
    r.append(params.to_query().as_str());
    r
}

/// Where a node loads a request file from the primary node, whose address is `uri`.
pub fn data_file_uri(uri: &str, filename: &str) -> (r: String)
    ensures
        r@ == uri@ + PATH_REQUEST_DATA_FILE_DOWNLOAD@ + seq!['/'] + filename@,
{
    let mut r = uri.to_owned();
    r.append(PATH_REQUEST_DATA_FILE_DOWNLOAD);
    r.push('/');
    r.append(filename);
    r
}

/// The address that a URL and a reference relative to it make together.
pub uninterp spec fn joined_url(base: Seq<char>, reference: Seq<char>) -> Option<Seq<char>>;

/// `url::Url::parse` and `url::Url::join`: none where one of them fails. The outcome is a function
/// of both texts: [`joined_url`].
#[verifier::external_body]
fn join_url(base: &str, reference: &str) -> (r: Option<String>)
    ensures
        match r {
            Some(url) => joined_url(base@, reference@) == Some(url@),
            None => joined_url(base@, reference@) is None,
        },
{
    url::Url::parse(base).ok()?.join(reference).ok().map(|url| url.to_string())
}

/// Where a node sends a file of requests on to the primary node.
pub fn upload_uri(uri: &str) -> (r: Option<String>)
    ensures
        match r {
            Some(url) => joined_url(uri@, PATH_FILE_UPLOAD@) == Some(url@),
            None => joined_url(uri@, PATH_FILE_UPLOAD@) is None,
        },
{
    join_url(uri, PATH_FILE_UPLOAD)
}

/// The address of a node.
pub open spec fn node_text(host: Seq<char>, port: u16) -> Seq<char> {
    "http://"@ + host + seq![':'] + decimal_text(port as nat)
}

/// Where a request file is, relative to an address.
pub open spec fn download_text(base: Seq<char>, filename: Seq<char>) -> Option<Seq<char>> {
    match joined_url(base, PATH_DATA_FILES@) {
        Some(dir) => joined_url(dir, filename),
        None => None,
    }
}

/// Where a node loads a request file from the primary node, which listens at `port` of `host`.
pub fn download_uri(host: &str, port: u16, filename: &str) -> (r: Option<String>)
    ensures
        match r {
            Some(url) => download_text(node_text(host@, port), filename@) == Some(url@),
            None => download_text(node_text(host@, port), filename@) is None,
        },
{
    let mut base = "http://".to_owned();
    base.append(host);
    base.push(':');
    base.append(decimal(port as u64).as_str());
    assert(base@ =~= node_text(host@, port));
    match join_url(base.as_str(), PATH_DATA_FILES) {
        Some(dir) => join_url(dir.as_str(), filename),
        None => None,
    }
}

/// The request file that a node must have before it runs a test.
pub fn needed_file(req: &RequestSpecEnum) -> (r: Option<&str>)
    ensures
        match req {
            RequestSpecEnum::RequestFile(file) => r is Some && r->0@ == file.file_name@,
            RequestSpecEnum::SplitRequestFile(file) => r is Some && r->0@ == file.file_name@,
            _ => r is None,
        },
{
    match req {
        RequestSpecEnum::RequestFile(file) => Some(file.file_name.as_str()),
        RequestSpecEnum::SplitRequestFile(file) => Some(file.file_name.as_str()),
        _ => None,
    }
}

// ---------------------------------------------------------------------------------------------
// Ports
// ---------------------------------------------------------------------------------------------

/// A port that a node offers.
#[derive(Debug)]
pub struct NodePort {
    pub name: Option<String>,
    pub port: u32,
}

pub open spec fn is_named(p: NodePort, name: Seq<char>) -> bool {
    p.name is Some && p.name->0@ == name
}

/// The first port with the given name. Only its lower 16 bits count.
pub fn find_port(ports: &Vec<NodePort>, name: &str) -> (r: Option<u16>)
    ensures
        match r {
            Some(port) => exists|i: int|
                {
                    &&& 0 <= i < ports@.len()
                    &&& is_named(#[trigger] ports@[i], name@)
                    &&& port == ports@[i].port as u16
                    &&& forall|j: int| 0 <= j < i ==> !is_named(#[trigger] ports@[j], name@)
                },
            None => forall|j: int| 0 <= j < ports@.len() ==> !is_named(#[trigger] ports@[j], name@),
        },
{
    let mut i: usize = 0;
    while i < ports.len()
        invariant
            i <= ports@.len(),
            forall|j: int| 0 <= j < i ==> !is_named(#[trigger] ports@[j], name@),
        decreases ports@.len() - i,
    {
        if let Some(n) = &ports[i].name {
            if same_text(n.as_str(), name) {
                assert(is_named(ports@[i as int], name@));
                return Some(ports[i].port as u16);
            }
        }
        i += 1;
    }
    None
}

} // verus!
