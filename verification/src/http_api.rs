//! What the HTTP interface takes and answers.

use vstd::prelude::*;
use vstd::string::StringExecFns;

use crate::jobs::JobStatus;
use crate::json::{has_key, key_index, lemma_key_index, lemma_set_entry, lookup, set_entry};
use crate::text::{
    chars_of, decimal, decimal_text, join2, lemma_decimal_round_trip, natural_value, parse_natural,
};
use crate::text_map::{without, TextMap};

verus! {

pub const DEFAULT_HTTP_PORT: u16 = 3030;

pub const DEFAULT_DATA_DIR: &'static str = "/tmp";

pub const PATH_REQUEST_DATA_FILE_DOWNLOAD: &'static str = "/cluster/data-file";

/// The directory of request files, to which their names are relative.
pub const PATH_DATA_FILES: &'static str = "/cluster/data-file/";

pub const PATH_JOB_STATUS: &'static str = "/test/status";

pub const PATH_STOP_JOB: &'static str = "/test/stop";

pub const PATH_FILE_UPLOAD: &'static str = "/test/requests-bin";

/// The protocol of a target.
#[derive(Clone, Copy, Debug, PartialEq, Eq, Structural)]
pub enum Scheme {
    HTTP,
}

/// What is tested.
#[derive(Clone, Debug)]
pub struct Target {
    pub host: String,
    pub port: u16,
    pub protocol: Scheme,
}

impl Target {
    /// The address to connect to.
    pub fn host_port(&self) -> (r: String)
        ensures
            r@ == self.host@ + ":"@ + decimal_text(self.port as nat),
    {
        let mut r = self.host.clone();
        r.append(":");
        r.append(decimal(self.port as u64).as_str());
        r
    }

    /// A copy.
    pub fn copied(&self) -> (r: Target)
        ensures
            r.host@ == self.host@,
            r.port == self.port,
            r.protocol == self.protocol,
    {
        Target { host: self.host.clone(), port: self.port, protocol: self.protocol }
    }
}

/// How long a connection is used.
#[derive(Clone, Copy, Debug, PartialEq, Eq, Structural)]
pub struct ConnectionKeepAlive {
    /// Seconds.
    pub ttl: u32,
    /// Not zero.
    pub max_request_per_connection: u32,
}

impl Default for ConnectionKeepAlive {
    fn default() -> (r: ConnectionKeepAlive)
        ensures
            r.ttl == u32::MAX,
            r.max_request_per_connection == u32::MAX,
    {
        ConnectionKeepAlive { ttl: u32::MAX, max_request_per_connection: u32::MAX }
    }
}

/// How the requests of a second are sent: in batches spread over the second, or as soon as
/// connections are available.
#[derive(Clone, Copy, Debug, PartialEq, Eq, Structural)]
pub enum LoadGenerationMode {
    /// The size of a batch is not zero.
    Batch { batch_size: usize },
    Immediate,
}

pub fn default_generation_mode() -> (r: LoadGenerationMode)
    ensures
        r == LoadGenerationMode::Immediate,
{
    LoadGenerationMode::Immediate
}

/// The answer to a request to run a test.
#[derive(Debug)]
pub struct Response {
    pub job_id: String,
    pub status: JobStatus,
}

impl Response {
    pub fn new(job_id: String, status: JobStatus) -> (r: Response)
        ensures
            r.job_id@ == job_id@,
            r.status == status,
    {
        Response { job_id, status }
    }

    pub fn get_status(&self) -> (r: JobStatus)
        ensures
            r == self.status,
    {
        self.status
    }
}

/// The answer for a job of which only the name and a message are known.
#[derive(Debug)]
pub struct TestJobResponse {
    pub job_id: String,
    pub message: String,
}

/// An answer that maps names to values.
#[derive(Debug)]
pub struct GenericResponse<T> {
    pub data: TextMap<T>,
}

impl<T> GenericResponse<T> {
    /// An answer without values.
    pub fn empty() -> (r: GenericResponse<T>)
        ensures
            r.data.entries().len() == 0,
            r.data.wf(),
    {
        GenericResponse { data: TextMap::new() }
    }
}

/// The answer to the upload of a file: its name, and how many of its rows are valid.
pub fn file_upload_success_response(file_name: String, valid_count: usize) -> (r: GenericResponse<
    String,
>)
    ensures
        r.data.wf(),
        r.data.entries().len() == 2,
        r.data.entries()[0].0 == "file"@,
        r.data.entries()[0].1@ == file_name@,
        r.data.entries()[1].0 == "valid_count"@,
        r.data.entries()[1].1@ == decimal_text(valid_count as nat),
{
    let mut response = GenericResponse::<String>::empty();
    proof {
        lemma_key_index(response.data.entries(), "file"@);
    }
    response.data.insert("file".to_owned(), file_name);
    proof {
        reveal_strlit("file");
        reveal_strlit("valid_count");
        assert("file"@.len() != "valid_count"@.len());
        lemma_key_index(response.data.entries(), "valid_count"@);
        let i = key_index(response.data.entries(), "valid_count"@);
        assert(i < 0);
    }
    response.data.insert("valid_count".to_owned(), decimal(valid_count as u64));
    response
}

/// An error answer.
#[derive(Debug)]
pub struct GenericError {
    pub error_code: u16,
    pub message: String,
    pub data: TextMap<String>,
}

/// An error that has a code, a message and nothing else.
pub open spec fn plain_error(e: GenericError, code: u16, message: Seq<char>) -> bool {
    e.error_code == code && e.message@ == message && e.data.entries().len() == 0
}

impl Default for GenericError {
    fn default() -> (r: GenericError)
        ensures
            plain_error(r, u16::MAX, Seq::empty()),
    {
        GenericError { error_code: u16::MAX, message: String::new(), data: TextMap::new() }
    }
}

impl GenericError {
    pub fn internal_500(msg: &str) -> (r: GenericError)
        ensures
            plain_error(r, 500, msg@),
    {
        GenericError { error_code: 500, message: msg.to_owned(), data: TextMap::new() }
    }

    pub fn error_unknown() -> (r: GenericError)
        ensures
            plain_error(r, 500, "Unknown error"@),
    {
        GenericError::internal_500("Unknown error")
    }

    pub fn new(msg: &str, code: u16) -> (r: GenericError)
        ensures
            plain_error(r, code, msg@),
    {
        GenericError { error_code: code, message: msg.to_owned(), data: TextMap::new() }
    }

    /// An error with the text of another.
    pub fn from_error(code: u16, err: &str) -> (r: GenericError)
        ensures
            plain_error(r, code, err@),
    {
        GenericError::new(err, code)
    }

    /// The error as text: code, message and the number of further values.
    pub fn display(&self) -> (r: String)
        ensures
            r@ == "("@ + decimal_text(self.error_code as nat) + ", "@ + self.message@ + ", "@
                + decimal_text(self.data.entries().len()) + ")"@,
    {
        let mut r = "(".to_owned();
        r.append(decimal(self.error_code as u64).as_str());
        r.append(", ");
        r.append(self.message.as_str());
        r.append(", ");
        r.append(decimal(self.data.len() as u64).as_str());
        r.append(")");
        r
    }
}

// ---------------------------------------------------------------------------------------------
// Which jobs are asked for
// ---------------------------------------------------------------------------------------------

/// Which jobs are asked for: one by name, or a page of all.
#[derive(Debug)]
pub enum JobStatusQueryParams {
    JobId { job_id: String },
    PagerOptions { offset: usize, limit: usize },
}

/// What [`JobStatusQueryParams`] are.
pub enum ParamsView {
    JobId(Seq<char>),
    PagerOptions(nat, nat),
}

impl View for JobStatusQueryParams {
    type V = ParamsView;

    open spec fn view(&self) -> ParamsView {
        match self {
            JobStatusQueryParams::JobId { job_id } => ParamsView::JobId(job_id@),
            JobStatusQueryParams::PagerOptions { offset, limit } => ParamsView::PagerOptions(
                *offset as nat,
                *limit as nat,
            ),
        }
    }
}

/// The parameters as they stand in a query.
pub open spec fn params_text(p: ParamsView) -> Seq<char> {
    match p {
        ParamsView::JobId(id) => "job_id="@ + id,
        ParamsView::PagerOptions(offset, limit) => "offset="@ + decimal_text(offset) + "&limit="@
            + decimal_text(limit),
    }
}

/// What is said of a text that is no number.
pub uninterp spec fn number_error_text(text: Seq<char>) -> Seq<char>;

/// The message of the error that `str::parse::<usize>` gives. It is a function of the text:
/// [`number_error_text`].
#[verifier::external_body]
fn number_error(text: &str) -> (r: String)
    ensures
        r@ == number_error_text(text@),
{
    text.parse::<usize>().err().map(|e| e.to_string()).unwrap_or_default()
}

pub open spec fn text_or(value: Option<String>, default: Seq<char>) -> Seq<char> {
    match value {
        Some(s) => s@,
        None => default,
    }
}

/// The number that a text denotes, where it fits a machine word.
pub open spec fn word_value(text: Seq<char>) -> Option<nat> {
    match natural_value(text) {
        Some(n) => if n <= usize::MAX {
            Some(n)
        } else {
            None
        },
        None => None,
    }
}

/// The parameters of a query, or the code and the message of the error. A name comes first; what
/// is not understood is refused.
pub open spec fn params_of(entries: Seq<(Seq<char>, String)>) -> Result<
    ParamsView,
    (u16, Seq<char>),
> {
    let too_many: Result<ParamsView, (u16, Seq<char>)> = Err(
        (400, "Invalid or too many query params"@),
    );
    match lookup(entries, "job_id"@) {
        Some(id) => if without(entries, "job_id"@).len() == 0 {
            Ok(ParamsView::JobId(id@))
        } else {
            too_many
        },
        None => {
            let offset_text = text_or(lookup(entries, "offset"@), "0"@);
            let rest = without(entries, "offset"@);
            let limit_text = text_or(lookup(rest, "limit"@), "20"@);
            match word_value(offset_text) {
                None => Err(
                    (
                        400,
                        "Invalid offset "@ + offset_text + ", "@ + number_error_text(offset_text),
                    ),
                ),
                Some(offset) => match word_value(limit_text) {
                    None => Err(
                        (
                            400,
                            "Invalid limit "@ + decimal_text(offset) + ", "@ + number_error_text(
                                limit_text,
                            ),
                        ),
                    ),
                    Some(limit) => if limit < 1 {
                        Err((400, "limit can't be less than 1"@))
                    } else if without(rest, "limit"@).len() == 0 {
                        Ok(ParamsView::PagerOptions(offset, limit))
                    } else {
                        too_many
                    },
                },
            }
        },
    }
}

impl JobStatusQueryParams {
    /// The parameters as they stand in a query.
    pub fn to_query(&self) -> (r: String)
        ensures
            r@ == params_text(self@),
    {
        match self {
            JobStatusQueryParams::JobId { job_id } => join2("job_id=", job_id.as_str()),
            JobStatusQueryParams::PagerOptions { offset, limit } => {
                let mut r = "offset=".to_owned();
                r.append(decimal(*offset as u64).as_str());
                r.append("&limit=");
                r.append(decimal(*limit as u64).as_str());
                r
            },
        }
    }

    /// Reads the parameters of a query.
    pub fn try_from(value: TextMap<String>) -> (r: Result<JobStatusQueryParams, GenericError>)
        ensures
            match r {
                Ok(p) => params_of(value.entries()) == Ok::<ParamsView, (u16, Seq<char>)>(p@),
                Err(e) => params_of(value.entries()) == Err::<ParamsView, (u16, Seq<char>)>(
                    (e.error_code, e.message@),
                ) && e.data.entries().len() == 0,
            },
    {
        let mut value = value;
        let ghost entries = value.entries();
        proof {
            lemma_key_index(entries, "job_id"@);
        }
        let job_id = value.remove("job_id");
        let params = if let Some(job_id) = job_id {
            JobStatusQueryParams::JobId { job_id }
        } else {
            let offset = value.remove("offset");
            let ghost rest = value.entries();
            let offset_text: String = match offset {
                Some(t) => t,
                None => "0".to_owned(),
            };
            assert(offset_text@ == text_or(lookup(entries, "offset"@), "0"@));
            let offset: usize = match parse_natural(offset_text.as_str(), usize::MAX as u64) {
                Some(n) => n as usize,
                None => {
                    let mut m = "Invalid offset ".to_owned();
                    m.append(offset_text.as_str());
                    m.append(", ");
                    m.append(number_error(offset_text.as_str()).as_str());
                    return Err(GenericError::new(m.as_str(), 400));
                },
            };
            let limit = value.remove("limit");
            let limit_text: String = match limit {
                Some(t) => t,
                None => "20".to_owned(),
            };
            assert(limit_text@ == text_or(lookup(rest, "limit"@), "20"@));
            let limit: usize = match parse_natural(limit_text.as_str(), usize::MAX as u64) {
                Some(n) => n as usize,
                None => {
                    let mut m = "Invalid limit ".to_owned();
                    m.append(decimal(offset as u64).as_str());
                    m.append(", ");
                    m.append(number_error(limit_text.as_str()).as_str());
                    return Err(GenericError::new(m.as_str(), 400));
                },
            };
            if limit < 1 {
                return Err(GenericError::new("limit can't be less than 1", 400));
            }
            JobStatusQueryParams::PagerOptions { offset, limit }
        };
        if value.is_empty() {
            Ok(params)
        } else {
            Err(GenericError::new("Invalid or too many query params", 400))
        }
    }
}

/// The entries of a query that asks for a page.
pub open spec fn pager_entries(offset: String, limit: String) -> Seq<(Seq<char>, String)> {
    seq![("offset"@, offset), ("limit"@, limit)]
}

/// A page that is written into a query is read back, where it is not empty.
pub proof fn lemma_page_round_trip(offset: nat, limit: nat, offset_text: String, limit_text: String)
    requires
        offset <= usize::MAX,
        1 <= limit <= usize::MAX,
        offset_text@ == decimal_text(offset),
        limit_text@ == decimal_text(limit),
    ensures
        params_of(pager_entries(offset_text, limit_text)) == Ok::<ParamsView, (u16, Seq<char>)>(
            ParamsView::PagerOptions(offset, limit),
        ),
{
    reveal_strlit("job_id");
    reveal_strlit("offset");
    reveal_strlit("limit");
    assert("job_id"@.len() == 6 && "offset"@.len() == 6 && "limit"@.len() == 5);
    assert("job_id"@[0] != "offset"@[0]);
    let entries = pager_entries(offset_text, limit_text);
    assert(entries[0].0 == "offset"@ && entries[1].0 == "limit"@);
    lemma_key_index(entries, "job_id"@);
    lemma_key_index(entries, "offset"@);
    assert(has_key(entries, "offset"@));
    assert(key_index(entries, "offset"@) == 0);
    assert(key_index(entries, "job_id"@) == -1);
    let rest = without(entries, "offset"@);
    assert(rest =~= seq![("limit"@, limit_text)]);
    assert(rest[0].0 == "limit"@);
    lemma_key_index(rest, "limit"@);
    assert(has_key(rest, "limit"@));
    assert(without(rest, "limit"@).len() == 0);
    lemma_decimal_round_trip(offset);
    lemma_decimal_round_trip(limit);
}

/// A name that is written into a query is read back.
pub proof fn lemma_job_id_round_trip(job_id: String)
    ensures
        params_of(seq![("job_id"@, job_id)]) == Ok::<ParamsView, (u16, Seq<char>)>(
            ParamsView::JobId(job_id@),
        ),
{
    let entries = seq![("job_id"@, job_id)];
    assert(entries[0].0 == "job_id"@);
    lemma_key_index(entries, "job_id"@);
    assert(has_key(entries, "job_id"@));
}

// ---------------------------------------------------------------------------------------------
// The host header
// ---------------------------------------------------------------------------------------------

/// An ASCII letter in lower case.
pub open spec fn lower(c: char) -> char {
    if 'A' <= c <= 'Z' {
        ((c as u32) + 32) as char
    } else {
        c
    }
}

/// Whether two texts are equal but for the case of ASCII letters.
pub open spec fn same_ignoring_case(a: Seq<char>, b: Seq<char>) -> bool {
    a.len() == b.len() && forall|i: int| 0 <= i < a.len() ==> lower(#[trigger] a[i]) == lower(b[i])
}

fn lower_char(c: char) -> (r: char)
    ensures
        r == lower(c),
{
    if 'A' <= c && c <= 'Z' {
        (c as u8 + 32) as char
    } else {
        c
    }
}

fn eq_ignore_case(a: &str, b: &str) -> (r: bool)
    ensures
        r == same_ignoring_case(a@, b@),
{
    let x = chars_of(a);
    let y = chars_of(b);
    if x.len() != y.len() {
        return false;
    }
    let mut i: usize = 0;
    while i < x.len()
        invariant
            i <= x@.len() == y@.len(),
            x@ == a@,
            y@ == b@,
            forall|j: int| 0 <= j < i ==> lower(#[trigger] x@[j]) == lower(y@[j]),
        decreases x@.len() - i,
    {
        if lower_char(x[i]) != lower_char(y[i]) {
            assert(lower(a@[i as int]) != lower(b@[i as int]));
            return false;
        }
        i += 1;
    }
    true
}

/// One of the headers is the host header.
pub open spec fn has_host(entries: Seq<(Seq<char>, String)>) -> bool {
    exists|i: int| 0 <= i < entries.len() && same_ignoring_case((#[trigger] entries[i]).0, "host"@)
}

/// Adds the host of the target to the headers, where no host header is there yet.
pub fn validate_and_update_host_header(headers: &mut TextMap<String>, target: &Target)
    ensures
        has_host(old(headers).entries()) ==> final(headers).entries() == old(headers).entries(),
        !has_host(old(headers).entries()) ==> exists|host: String|
            host@ == target.host@ && final(headers).entries() == #[trigger] set_entry(
                old(headers).entries(),
                "host"@,
                host,
            ),
        old(headers).wf() ==> final(headers).wf(),
{
    let ghost entries = headers.entries();
    let mut i: usize = 0;
    while i < headers.len()
        invariant
            i <= headers.entries().len(),
            headers.entries() == entries,
            *headers == *old(headers),
            forall|j: int|
                0 <= j < i ==> !same_ignoring_case((#[trigger] entries[j]).0, "host"@),
        decreases headers.entries().len() - i,
    {
        let (key, _) = headers.entry(i);
        if eq_ignore_case(key, "host") {
            return;
        }
        i += 1;
    }
    let host = target.host.clone();
    headers.insert("host".to_owned(), host);
}

/// Whatever the headers were, one of them is the host header afterwards, and every other header
/// is as it was.
pub proof fn lemma_host_header(before: Seq<(Seq<char>, String)>, host: String)
    requires
        !has_host(before),
    ensures
        has_host(set_entry(before, "host"@, host)),
        lookup(set_entry(before, "host"@, host), "host"@) == Some(host),
        forall|other: Seq<char>|
            other != "host"@ ==> #[trigger] lookup(set_entry(before, "host"@, host), other)
                == lookup(before, other),
{
    lemma_set_entry(before, "host"@, host);
    let after = set_entry(before, "host"@, host);
    lemma_key_index(after, "host"@);
    let i = key_index(after, "host"@);
    assert(after[i].0 == "host"@);
    assert(same_ignoring_case(after[i].0, "host"@));
}

} // verus!
