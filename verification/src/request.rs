//! The description of a test, as it is submitted.

use vstd::prelude::*;
use vstd::string::StringExecFns;

use crate::file_path::{full_path, full_path_text, lemma_full_path, DATA_FILE_ENDING};
use crate::generator::{ConcurrentConnectionRateSpec, RateSpecEnum, RequestGenerator};
use crate::http_api::{
    has_host, validate_and_update_host_header, ConnectionKeepAlive, LoadGenerationMode, Target,
};
use crate::http_req::HttpReq;
use crate::json::set_entry;
use crate::request_specs::{
    given_name, RequestFile, RequestList, RequestSpecEnum, SplitRequestFile,
};
use crate::response_assert::ResponseAssertion;
use crate::text::lemma_split_tail;

verus! {

/// A test.
#[derive(Clone, Debug)]
pub struct Request {
    pub name: Option<String>,
    /// In seconds.
    pub duration: u32,
    pub target: Target,
    pub req: RequestSpecEnum,
    pub qps: RateSpecEnum,
    pub concurrent_connection: ConcurrentConnectionRateSpec,
    pub connection_keep_alive: ConnectionKeepAlive,
    pub response_assertion: Option<ResponseAssertion>,
    pub generation_mode: LoadGenerationMode,
}

/// A test as it was written, before its headers were completed.
#[derive(Clone, Debug)]
pub struct RequestShadow {
    pub name: Option<String>,
    pub duration: u32,
    pub target: Target,
    pub req: RequestSpecEnum,
    pub qps: RateSpecEnum,
    pub concurrent_connection: ConcurrentConnectionRateSpec,
    pub connection_keep_alive: ConnectionKeepAlive,
    pub response_assertion: Option<ResponseAssertion>,
    pub generation_mode: LoadGenerationMode,
}

/// Several tests that are submitted together.
#[derive(Debug)]
pub struct MultiRequest {
    pub name: Option<String>,
    pub requests: Vec<Request>,
}

/// `after` are the headers `before` with the host of the target, where there was none.
pub open spec fn with_host(
    before: Seq<(Seq<char>, String)>,
    after: Seq<(Seq<char>, String)>,
    host: Seq<char>,
) -> bool {
    if has_host(before) {
        after == before
    } else {
        exists|value: String| value@ == host && after == #[trigger] set_entry(
            before,
            "host"@,
            value,
        )
    }
}

/// `after` is the source of requests `before`, of which headers that are written once for all
/// requests name a host.
pub open spec fn completed(before: RequestSpecEnum, after: RequestSpecEnum, host: Seq<char>) -> bool {
    match (before, after) {
        (RequestSpecEnum::JsonTemplateRequest(b), RequestSpecEnum::JsonTemplateRequest(a)) => {
            &&& with_host(b.headers.entries(), a.headers.entries(), host)
            &&& a.init == b.init && a.method == b.method && a.url == b.url && a.body == b.body
        },
        (RequestSpecEnum::RandomDataRequest(b), RequestSpecEnum::RandomDataRequest(a)) => {
            &&& with_host(b.headers.entries(), a.headers.entries(), host)
            &&& a.init == b.init && a.method == b.method && a.url == b.url
            &&& a.url_param_pos == b.url_param_pos
            &&& a.body_schema == b.body_schema
            &&& a.uri_param_schema == b.uri_param_schema
        },
        (RequestSpecEnum::JsonTemplateRequest(_), _) => false,
        (RequestSpecEnum::RandomDataRequest(_), _) => false,
        _ => after == before,
    }
}

/// Completes the headers of a source of requests.
fn complete_headers(req: RequestSpecEnum, target: &Target) -> (r: RequestSpecEnum)
    ensures
        completed(req, r, target.host@),
{
    match req {
        RequestSpecEnum::JsonTemplateRequest(template) => {
            let mut template = template;
            validate_and_update_host_header(&mut template.headers, target);
            RequestSpecEnum::JsonTemplateRequest(template)
        },
        RequestSpecEnum::RandomDataRequest(random) => {
            let mut random = random;
            validate_and_update_host_header(&mut random.headers, target);
            RequestSpecEnum::RandomDataRequest(random)
        },
        other => other,
    }
}

impl Request {
    /// A test as it was written, with a host among its headers.
    pub fn from(value: RequestShadow) -> (r: Request)
        ensures
            completed(value.req, r.req, value.target.host@),
            r.name == value.name,
            r.duration == value.duration,
            r.target == value.target,
            r.qps == value.qps,
            r.concurrent_connection == value.concurrent_connection,
            r.connection_keep_alive == value.connection_keep_alive,
            r.response_assertion == value.response_assertion,
            r.generation_mode == value.generation_mode,
    {
        let req = complete_headers(value.req, &value.target);
        Request {
            name: value.name,
            duration: value.duration,
            target: value.target,
            req,
            qps: value.qps,
            concurrent_connection: value.concurrent_connection,
            connection_keep_alive: value.connection_keep_alive,
            response_assertion: value.response_assertion,
            generation_mode: value.generation_mode,
        }
    }
}

/// Where an upload of the given name is kept.
pub open spec fn data_file_text(data_dir: Seq<char>, name: Seq<char>) -> Seq<char> {
    data_dir + seq!['/'] + name + DATA_FILE_ENDING@
}

/// Where an upload of the given name is kept.
pub fn data_file_path(data_dir: &str, name: &str) -> (r: String)
    ensures
        r@ == data_file_text(data_dir@, name@),
{
    let mut r = data_dir.to_owned();
    r.push('/');
    r.append(name);
    r.append(DATA_FILE_ENDING);
    r
}

/// An upload is looked for where it is kept: its full path is that place.
pub proof fn lemma_upload_is_found(data_dir: Seq<char>, name: Seq<char>)
    requires
        data_dir.len() > 0,
        data_dir.last() != '/',
        name.len() > 0,
        !name.contains('/'),
        !name.contains('.'),
    ensures
        full_path_text(data_dir, name) == data_file_text(data_dir, name),
{
    lemma_full_path(data_dir, name);
}

/// The name that a request file was given under can be read from the place where it is kept.
pub proof fn lemma_given_name(data_dir: Seq<char>, name: Seq<char>)
    requires
        !name.contains('/'),
    ensures
        given_name(data_file_text(data_dir, name)) == Some(name),
{
    let ending = DATA_FILE_ENDING@;
    reveal_strlit(".sqlite");
    let file = name + ending;
    assert(data_file_text(data_dir, name) =~= data_dir + seq!['/'] + file);
    assert forall|i: int| 0 <= i < file.len() implies file[i] != '/' by {
        if i < name.len() {
            assert(name.contains(name[i]));
        } else {
            assert(file[i] == ending[i - name.len()]);
        }
    }
    lemma_split_tail(data_dir, file, '/');
    assert(file.skip(file.len() - ending.len()) =~= ending);
    assert(file.take(file.len() - ending.len()) =~= name);
}

impl RequestSpecEnum {
    pub fn from(req: Vec<HttpReq>) -> (r: RequestSpecEnum)
        ensures
            r matches RequestSpecEnum::RequestList(list) && list.data == req,
    {
        RequestSpecEnum::RequestList(RequestList { data: req })
    }

    /// The same source, with the full path of its file, where it has one.
    pub open spec fn is_located(
        before: RequestSpecEnum,
        after: RequestSpecEnum,
        data_dir: Seq<char>,
    ) -> bool {
        match (before, after) {
            (RequestSpecEnum::RequestFile(b), RequestSpecEnum::RequestFile(a)) => {
                &&& a.file_name@ == full_path_text(data_dir, b.file_name@)
                &&& a == (RequestFile { file_name: a.file_name, ..b })
            },
            (RequestSpecEnum::RequestFile(_), _) => false,
            (RequestSpecEnum::SplitRequestFile(b), RequestSpecEnum::SplitRequestFile(a)) => {
                &&& a.file_name@ == full_path_text(data_dir, b.file_name@)
                &&& a == (SplitRequestFile { file_name: a.file_name, ..b })
            },
            (RequestSpecEnum::SplitRequestFile(_), _) => false,
            _ => after == before,
        }
    }

    /// A source as a node that gets it uses it: its file, where it has one, under its full path.
    pub fn located(self, data_dir: &str) -> (r: RequestSpecEnum)
        ensures
            Self::is_located(self, r, data_dir@),
    {
        match self {
            RequestSpecEnum::RequestFile(file) => {
                let mut file = file;
                file.file_name = full_path(data_dir, file.file_name.as_str());
                RequestSpecEnum::RequestFile(file)
            },
            RequestSpecEnum::SplitRequestFile(file) => {
                let mut file = file;
                file.file_name = full_path(data_dir, file.file_name.as_str());
                RequestSpecEnum::SplitRequestFile(file)
            },
            other => other,
        }
    }

    /// Requests of this source can be made by every node of a cluster.
    pub open spec fn is_shared(&self) -> bool {
        self is RequestFile || self is RandomDataRequest
    }

    /// The source gives requests on demand.
    pub open spec fn is_provider(&self) -> bool {
        self is RequestList || self is RequestFile || self is RandomDataRequest
    }
}

impl Request {
    /// The plan of a test, and the source of its requests, with its file looked for in
    /// `data_dir`. Only lists, files and random data give requests on demand.
    pub fn into_generator(self, data_dir: &str) -> (r: Option<(RequestGenerator, RequestSpecEnum)>)
        ensures
            r is Some == self.req.is_provider(),
            r matches Some((plan, source)) ==> {
                &&& plan.count() == 0
                &&& plan.seconds() == self.duration
                &&& plan.scale() == 1
                &&& plan.is_shared() == self.req.is_shared()
                &&& plan.qps() == self.qps
                &&& plan.connections() == self.concurrent_connection
                &&& plan.test_target() == self.target
                &&& plan.checks() == self.response_assertion
                &&& RequestSpecEnum::is_located(self.req, source, data_dir@)
            },
    {
        let (source, shared) = match self.req {
            RequestSpecEnum::RequestList(list) => {
                let shared = list.shared();
                (RequestSpecEnum::RequestList(list), shared)
            },
            RequestSpecEnum::RequestFile(file) => {
                let shared = file.shared();
                (RequestSpecEnum::RequestFile(file).located(data_dir), shared)
            },
            RequestSpecEnum::RandomDataRequest(random) => {
                let shared = random.shared();
                (RequestSpecEnum::RandomDataRequest(random), shared)
            },
            RequestSpecEnum::SplitRequestFile(_) => {
                return None;
            },
            RequestSpecEnum::JsonTemplateRequest(_) => {
                return None;
            },
        };
        let plan = RequestGenerator::new(
            self.duration,
            shared,
            self.qps,
            self.target,
            Some(self.concurrent_connection),
            self.response_assertion,
        );
        Some((plan, source))
    }
}

} // verus!
