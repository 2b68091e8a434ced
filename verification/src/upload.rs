//! Files of requests that are uploaded: rows of a CSV file, and rows of a database.

use vstd::prelude::*;
use vstd::utf8::encode_utf8;

use crate::http_api::{file_upload_success_response, plain_error, GenericError, GenericResponse};
use crate::http_req::{is_method, parse_method, HttpReq};
use crate::json::{entries_view, lemma_object_view, set_entry, Json, JsonView};
use crate::response_assert::{uri_parts, UriParts};
use crate::serde_bridge::{json_of, json_text, json_text_of, parse_json};
use crate::text::{decimal_text, integer, integer_text};
use crate::text_map::{lemma_map_texts_set, map_texts, TextMap};

verus! {

/// Makes the table of requests.
pub const CREATE_TABLE: &'static str =
    "CREATE TABLE IF NOT EXISTS http_req (url TEXT NOT NULL, method TEXT NOT NULL, body BLOB, headers TEXT);";

/// Adds a request: address, method, body and headers.
pub const INSERT_ROW: &'static str = "insert into http_req values(?,?,?,?)";

/// A row of a CSV file. Its headers are a JSON object.
#[derive(Debug, Clone)]
pub struct HttpReqCsvHelper {
    pub method: String,
    pub url: String,
    pub body: Option<String>,
    pub headers: String,
}

/// What is wrong with a row.
#[derive(Clone, Copy, Debug, PartialEq, Eq, Structural)]
pub enum RowError {
    InvalidUrl,
    InvalidMethod,
    InvalidHeaders,
}

// ---------------------------------------------------------------------------------------------
// Headers as JSON
// ---------------------------------------------------------------------------------------------

/// All members are strings.
pub open spec fn all_strings(e: Seq<(Seq<char>, JsonView)>) -> bool {
    forall|i: int| 0 <= i < e.len() ==> (#[trigger] e[i]).1 is String
}

/// The members of an object, where all of them are strings. Of several with the same name the
/// last one counts.
pub open spec fn string_members(e: Seq<(Seq<char>, JsonView)>) -> Seq<(Seq<char>, Seq<char>)>
    decreases e.len(),
{
    if e.len() == 0 {
        Seq::empty()
    } else {
        set_entry(string_members(e.drop_last()), e.last().0, e.last().1->String_0)
    }
}

/// The headers that a JSON text lists; none where it is no object of strings.
pub open spec fn headers_of(text: Seq<char>) -> Option<Seq<(Seq<char>, Seq<char>)>> {
    match json_of(encode_utf8(text)) {
        Ok(JsonView::Object(e)) => if all_strings(e) {
            Some(string_members(e))
        } else {
            None
        },
        _ => None,
    }
}

/// Reads headers from a JSON object of strings.
pub fn parse_headers(text: &str) -> (r: Option<TextMap<String>>)
    ensures
        match r {
            Some(headers) => headers.wf() && headers_of(text@) == Some(
                map_texts(headers.entries()),
            ),
            None => headers_of(text@) is None,
        },
{
    broadcast use lemma_object_view;

    let json = match parse_json(text.as_bytes()) {
        Ok(json) => json,
        Err(_) => {
            return None;
        },
    };
    match json {
        Json::Object(members) => {
            let ghost e = entries_view(members@);
            let mut headers: TextMap<String> = TextMap::new();
            let mut i: usize = 0;
            assert(e.take(0) =~= Seq::empty());
            assert(map_texts(headers.entries()) =~= Seq::empty());
            while i < members.len()
                invariant
                    i <= members@.len(),
                    e == entries_view(members@),
                    json_of(encode_utf8(text@)) == Ok::<JsonView, Seq<char>>(JsonView::Object(e)),
                    headers.wf(),
                    forall|k: int| 0 <= k < i ==> (#[trigger] e[k]).1 is String,
                    map_texts(headers.entries()) == string_members(e.take(i as int)),
                decreases members@.len() - i,
            {
                assert(e[i as int] == (members@[i as int].0@, members@[i as int].1@));
                match &members[i].1 {
                    Json::String(value) => {
                        let name = members[i].0.clone();
                        let value = value.clone();
                        proof {
                            assert(e.take(i + 1).drop_last() =~= e.take(i as int));
                            assert(e.take(i + 1).last() == e[i as int]);
                            lemma_map_texts_set(headers.entries(), name@, value);
                        }
                        headers.insert(name, value);
                    },
                    _ => {
                        assert(!(e[i as int].1 is String));
                        return None;
                    },
                }
                i += 1;
            }
            assert(e.take(i as int) =~= e);
            Some(headers)
        },
        _ => None,
    }
}

/// Headers as a JSON object.
pub open spec fn headers_json(entries: Seq<(Seq<char>, Seq<char>)>) -> JsonView {
    JsonView::Object(
        Seq::new(entries.len(), |i: int| (entries[i].0, JsonView::String(entries[i].1))),
    )
}

/// Writes headers as a JSON object.
pub fn headers_text(headers: &TextMap<String>) -> (r: String)
    ensures
        r@ == json_text_of(headers_json(map_texts(headers.entries()))),
{
    broadcast use lemma_object_view;

    let ghost all = map_texts(headers.entries());
    let mut members: Vec<(String, Json)> = Vec::new();
    let mut i: usize = 0;
    while i < headers.len()
        invariant
            i <= all.len(),
            all == map_texts(headers.entries()),
            members@.len() == i,
            forall|k: int|
                0 <= k < i ==> #[trigger] entries_view(members@)[k] == (
                    all[k].0,
                    JsonView::String(all[k].1),
                ),
        decreases all.len() - i,
    {
        let (name, value) = headers.entry(i);
        let ghost before = entries_view(members@);
        let member = (name.to_owned(), Json::text(value.as_str()));
        let ghost seen = (member.0@, member.1@);
        members.push(member);
        proof {
            assert(entries_view(members@) =~= before.push(seen));
            assert(all[i as int] == (name@, value@));
        }
        i += 1;
    }
    assert(entries_view(members@) =~= headers_json(all)->Object_0);
    json_text(&Json::Object(members))
}

// ---------------------------------------------------------------------------------------------
// Rows
// ---------------------------------------------------------------------------------------------

/// What is wrong with a row: its address is looked at first, then its method, then its headers.
pub open spec fn row_fault(row: HttpReqCsvHelper) -> Option<RowError> {
    if uri_parts(row.url@) is None {
        Some(RowError::InvalidUrl)
    } else if !is_method(row.method@) {
        Some(RowError::InvalidMethod)
    } else if headers_of(row.headers@) is None {
        Some(RowError::InvalidHeaders)
    } else {
        None
    }
}

/// `req` is the request of a row.
pub open spec fn is_row(req: HttpReq, row: HttpReqCsvHelper) -> bool {
    &&& req.id@ == ""@
    &&& req.method@ == row.method@
    &&& req.url@ == row.url@
    &&& req.body == row.body
    &&& headers_of(row.headers@) == Some(map_texts(req.headers.entries()))
}

impl HttpReqCsvHelper {
    /// The request of a row.
    pub fn try_into(self) -> (r: Result<HttpReq, RowError>)
        ensures
            match r {
                Ok(req) => row_fault(self) is None && is_row(req, self),
                Err(e) => row_fault(self) == Some(e),
            },
    {
        if UriParts::parse(self.url.as_str()).is_none() {
            return Err(RowError::InvalidUrl);
        }
        let method = match parse_method(self.method.as_str()) {
            Some(method) => method,
            None => {
                return Err(RowError::InvalidMethod);
            },
        };
        match parse_headers(self.headers.as_str()) {
            Some(headers) => Ok(
                HttpReq { id: "".to_owned(), method, url: self.url, body: self.body, headers },
            ),
            None => Err(RowError::InvalidHeaders),
        }
    }
}

/// What is written of a request into a database.
#[derive(Debug)]
pub struct InsertedRow {
    pub url: String,
    pub method: String,
    pub body: Option<String>,
    pub headers: String,
}

/// Reading a CSV file.
#[derive(Debug)]
pub struct CsvImport {
    /// How many rows were valid so far.
    pub success: usize,
}

impl CsvImport {
    pub fn new() -> (r: CsvImport)
        ensures
            r.success == 0,
    {
        CsvImport { success: 0 }
    }

    /// Takes a row, where one could be read: what to write into the database, where the row is
    /// valid. Other rows are passed over.
    pub fn on_row(&mut self, row: Option<HttpReqCsvHelper>) -> (r: Option<InsertedRow>)
        requires
            old(self).success < usize::MAX,
        ensures
            match r {
                Some(written) => {
                    &&& row is Some && row_fault(row->0) is None
                    &&& written.url@ == row->0.url@
                    &&& written.method@ == row->0.method@
                    &&& written.body == row->0.body
                    &&& written.headers@ == json_text_of(
                        headers_json(headers_of(row->0.headers@)->0),
                    )
                    &&& final(self).success == old(self).success + 1
                },
                None => {
                    &&& row is Some ==> row_fault(row->0) is Some
                    &&& final(self).success == old(self).success
                },
            },
    {
        match row {
            Some(row) => match row.try_into() {
                Ok(req) => {
                    self.success = self.success + 1;
                    let headers = headers_text(&req.headers);
                    Some(InsertedRow { url: req.url, method: req.method, body: req.body, headers })
                },
                Err(_) => None,
            },
            None => None,
        }
    }
}

/// The answer to an upload: the name of the file and how many of its rows are valid.
pub fn upload_response(file_name: String, valid_count: Option<usize>) -> (r: Result<
    GenericResponse<String>,
    GenericError,
>)
    ensures
        match valid_count {
            Some(n) => {
                &&& r is Ok
                &&& r->Ok_0.data.entries().len() == 2
                &&& r->Ok_0.data.entries()[0].0 == "file"@
                &&& r->Ok_0.data.entries()[0].1@ == file_name@
                &&& r->Ok_0.data.entries()[1].0 == "valid_count"@
                &&& r->Ok_0.data.entries()[1].1@ == decimal_text(n as nat)
            },
            None => r is Err && plain_error(r->Err_0, u16::MAX, "Unknown error."@),
        },
{
    match valid_count {
        Some(n) => Ok(file_upload_success_response(file_name, n)),
        None => Err(GenericError::new("Unknown error.", u16::MAX)),
    }
}

/// The request of a row of a database. Headers that cannot be read are left out.
pub fn req_from_row(
    id: i64,
    method: String,
    url: String,
    body: Option<String>,
    headers: &str,
) -> (r: HttpReq)
    requires
        is_method(method@),
    ensures
        r.id@ == integer_text(id as int),
        r.method@ == method@,
        r.url@ == url@,
        r.body == body,
        r.headers.wf(),
        match headers_of(headers@) {
            Some(all) => map_texts(r.headers.entries()) == all,
            None => r.headers.entries().len() == 0,
        },
{
    let headers = match parse_headers(headers) {
        Some(headers) => headers,
        None => TextMap::new(),
    };
    HttpReq { id: integer(id), method, url, body, headers }
}

/// The request of a row of a database, where it has the name of a method.
pub fn try_req_from_row(
    id: i64,
    method: &str,
    url: String,
    body: Option<String>,
    headers: &str,
) -> (r: Option<HttpReq>)
    ensures
        r is Some == is_method(method@),
        r matches Some(req) ==> {
            &&& req.id@ == integer_text(id as int)
            &&& req.method@ == method@
            &&& req.url@ == url@
            &&& req.body == body
            &&& req.headers.wf()
            &&& match headers_of(headers@) {
                Some(all) => map_texts(req.headers.entries()) == all,
                None => req.headers.entries().len() == 0,
            }
        },
{
    match parse_method(method) {
        Some(method) => Some(req_from_row(id, method, url, body, headers)),
        None => None,
    }
}

// ---------------------------------------------------------------------------------------------
// Parts of a file
// ---------------------------------------------------------------------------------------------

/// A file that is sent part by part.
#[derive(Debug)]
pub struct FileParts {
    /// Bytes that are left to send.
    pub left: u64,
}

/// What to do with what was read.
#[derive(Clone, Copy, Debug, PartialEq, Eq, Structural)]
pub enum PartStep {
    /// Send all of it.
    All,
    /// Send its first bytes.
    First(u64),
    /// Send nothing: the file is at its end.
    End,
}

/// How many bytes are sent.
pub open spec fn part_len(step: PartStep, n: u64) -> int {
    match step {
        PartStep::All => n as int,
        PartStep::First(m) => m as int,
        PartStep::End => 0,
    }
}

impl FileParts {
    /// The bytes of a file from `start` up to `end`.
    pub fn new(start: u64, end: u64) -> (r: FileParts)
        requires
            start <= end,
        ensures
            r.left == end - start,
    {
        FileParts { left: end - start }
    }

    /// Whether all was sent.
    pub fn is_done(&self) -> (r: bool)
        ensures
            r == (self.left == 0),
    {
        self.left == 0
    }

    /// What to do with `n` bytes that were read. No more bytes are sent than were asked for.
    pub fn on_read(&mut self, n: u64) -> (r: PartStep)
        requires
            old(self).left > 0,
        ensures
            r == (if n == 0 {
                PartStep::End
            } else if n > old(self).left {
                PartStep::First(old(self).left)
            } else {
                PartStep::All
            }),
            final(self).left == old(self).left - part_len(r, n),
            part_len(r, n) <= n,
    {
        if n == 0 {
            PartStep::End
        } else if n > self.left {
            let first: u64 = self.left;
            self.left = 0;
            PartStep::First(first)
        } else {
            self.left = self.left - n;
            PartStep::All
        }
    }
}

/// Whether a buffer needs more room, so that `room` more bytes fit.
pub fn needs_room(capacity: usize, len: usize, room: usize) -> (r: bool)
    requires
        len <= capacity,
    ensures
        r == (capacity - len < room),
{
    capacity - len < room
}

} // verus!
