//! Where the requests of a test come from: a list, a file, random data or a template.

use vstd::prelude::*;
use vstd::string::StringExecFns;
use vstd::utf8::encode_utf8;

use crate::external_data::ExternalView;
use crate::generate::{can_draw, can_generate_data, data_drawn, generate_data};
use crate::http_req::{req_same, HttpReq};
use crate::json::{Json, JsonView};
use crate::random::random_usize;
use crate::schema::DataSchema;
use crate::serde_bridge::{json_text, json_text_of};
use crate::text::{decimal, decimal_text, same_text, split, split_on, texts_view};
use crate::text_map::TextMap;
use crate::url_params::{filled, params_exactly, params_of, UrlParam};

verus! {

/// Requests that are given one by one.
#[derive(Debug, Clone)]
pub struct RequestList {
    pub data: Vec<HttpReq>,
}

/// The size of a request file that was not opened yet.
pub const UNKNOWN_SIZE: usize = 2147483647;

/// Counts the requests of a request file.
pub const COUNT_QUERY: &'static str = "SELECT COUNT(*) FROM http_req";

/// Requests in a database file, in no particular order.
#[derive(Debug)]
pub struct RequestFile {
    pub file_name: String,
    /// The file was opened, and `size` is the number of its rows.
    pub open: bool,
    pub size: usize,
}

/// Requests in a database file, of which a node reads a range.
#[derive(Debug)]
pub struct SplitRequestFile {
    pub file_name: String,
    pub open: bool,
    pub size: usize,
    pub range_start_inclusive: usize,
    pub range_end_inclusive: usize,
    pub next_read_cursor: usize,
}

/// Requests with data drawn at random.
#[derive(Debug, Clone)]
pub struct RandomDataRequest {
    pub init: bool,
    /// The name of the method, such as `GET`.
    pub method: String,
    pub url: String,
    /// The parameters of the URL, from right to left.
    pub url_param_pos: Option<Vec<UrlParam>>,
    pub headers: TextMap<String>,
    pub body_schema: Option<DataSchema>,
    pub uri_param_schema: Option<DataSchema>,
}

/// Requests from a template with embedded expressions.
#[derive(Debug, Clone)]
pub struct JsonTemplateRequest {
    pub init: bool,
    pub method: String,
    pub url: String,
    pub headers: TextMap<String>,
    pub body: Option<Json>,
}

/// The source of the requests of a test.
#[derive(Debug, Clone)]
pub enum RequestSpecEnum {
    RequestList(RequestList),
    RequestFile(RequestFile),
    SplitRequestFile(SplitRequestFile),
    RandomDataRequest(RandomDataRequest),
    JsonTemplateRequest(JsonTemplateRequest),
}

// ---------------------------------------------------------------------------------------------
// Lists
// ---------------------------------------------------------------------------------------------

/// Why a list has no requests to give.
pub const NO_DATA: &'static str = "No Data Found";

/// A request of the list.
pub open spec fn is_one_of(req: HttpReq, list: Seq<HttpReq>) -> bool {
    exists|j: int| 0 <= j < list.len() && req_same(req, #[trigger] list[j])
}

impl RequestList {
    pub fn from(data: Vec<HttpReq>) -> (r: RequestList)
        ensures
            r.data == data,
    {
        RequestList { data }
    }

    /// The requests at the given places.
    pub fn pick(&self, places: &Vec<usize>) -> (r: Vec<HttpReq>)
        requires
            forall|i: int| 0 <= i < places@.len() ==> #[trigger] places@[i] < self.data@.len(),
        ensures
            r@.len() == places@.len(),
            forall|i: int|
                0 <= i < r@.len() ==> req_same(
                    #[trigger] r@[i],
                    self.data@[places@[i] as int],
                ),
    {
        let mut r: Vec<HttpReq> = Vec::new();
        let mut i: usize = 0;
        while i < places.len()
            invariant
                i <= places@.len(),
                r@.len() == i,
                forall|k: int|
                    0 <= k < places@.len() ==> #[trigger] places@[k] < self.data@.len(),
                forall|k: int|
                    0 <= k < i ==> req_same(#[trigger] r@[k], self.data@[places@[k] as int]),
            decreases places@.len() - i,
        {
            r.push(self.data[places[i]].clone());
            i += 1;
        }
        r
    }

    /// `n` requests, each picked at random: one may come more than once. A list without requests
    /// has none to give.
    pub fn get_n(&self, n: usize) -> (r: Result<Vec<HttpReq>, String>)
        requires
            n > 0,
        ensures
            match r {
                Ok(list) => {
                    &&& self.data@.len() > 0
                    &&& list@.len() == n
                    &&& forall|i: int| 0 <= i < n ==> is_one_of(#[trigger] list@[i], self.data@)
                },
                Err(e) => self.data@.len() == 0 && e@ == NO_DATA@,
            },
    {
        if self.data.len() == 0 {
            return Err(NO_DATA.to_owned());
        }
        let last: usize = self.data.len() - 1;
        let mut places: Vec<usize> = Vec::new();
        let mut i: usize = 0;
        while i < n
            invariant
                i <= n,
                places@.len() == i,
                last == self.data@.len() - 1,
                forall|k: int| 0 <= k < i ==> #[trigger] places@[k] < self.data@.len(),
            decreases n - i,
        {
            places.push(random_usize(0, last));
            i += 1;
        }
        let list = self.pick(&places);
        proof {
            assert forall|k: int| 0 <= k < n implies is_one_of(
                #[trigger] list@[k],
                self.data@,
            ) by {
                assert(req_same(list@[k], self.data@[places@[k] as int]));
            }
        }
        Ok(list)
    }

    pub fn size_hint(&self) -> (r: usize)
        ensures
            r == self.data@.len(),
    {
        self.data.len()
    }

    /// The requests are sent to the nodes of a cluster one by one.
    pub fn shared(&self) -> (r: bool)
        ensures
            !r,
    {
        false
    }
}

// ---------------------------------------------------------------------------------------------
// Files
// ---------------------------------------------------------------------------------------------

/// Numbers in decimal, with commas between them.
pub open spec fn comma_list(ids: Seq<usize>) -> Seq<char>
    decreases ids.len(),
{
    if ids.len() == 0 {
        Seq::empty()
    } else if ids.len() == 1 {
        decimal_text(ids[0] as nat)
    } else {
        comma_list(ids.drop_last()) + seq![','] + decimal_text(ids.last() as nat)
    }
}

/// Selects the rows with the given ids.
pub open spec fn rows_query_text(ids: Seq<usize>) -> Seq<char> {
    "SELECT ROWID, * FROM http_req WHERE ROWID IN ("@ + comma_list(ids) + seq![')']
}

/// The query for the rows with the given ids.
pub fn rows_query(ids: &Vec<usize>) -> (r: String)
    ensures
        r@ == rows_query_text(ids@),
{
    let mut r = "SELECT ROWID, * FROM http_req WHERE ROWID IN (".to_owned();
    let ghost head = r@;
    let mut i: usize = 0;
    assert(r@ =~= head + comma_list(ids@.take(0)));
    while i < ids.len()
        invariant
            i <= ids@.len(),
            r@ == head + comma_list(ids@.take(i as int)),
        decreases ids@.len() - i,
    {
        let ghost before = r@;
        if i > 0 {
            r.push(',');
        }
        r.append(decimal(ids[i] as u64).as_str());
        proof {
            let taken = ids@.take(i + 1);
            assert(taken.drop_last() =~= ids@.take(i as int));
            assert(taken.last() == ids@[i as int]);
            assert(ids@.take(0) =~= Seq::empty());
            if i == 0 {
                assert(taken[0] == ids@[0]);
                assert(before =~= head);
            }
            assert(r@ =~= head + comma_list(taken));
        }
        i += 1;
    }
    assert(ids@.take(i as int) =~= ids@);
    r.push(')');
    assert(r@ =~= rows_query_text(ids@));
    r
}

/// The name that a request file was given under: what follows the last `/`, without `.sqlite`.
pub open spec fn given_name(path: Seq<char>) -> Option<Seq<char>> {
    let file = split_on(path, '/').last();
    let ending = ".sqlite"@;
    if file.len() >= ending.len() && file.skip(file.len() - ending.len()) == ending {
        Some(file.take(file.len() - ending.len()))
    } else {
        None
    }
}

impl RequestFile {
    pub fn new(file_name: String) -> (r: RequestFile)
        ensures
            r.file_name@ == file_name@,
            !r.open,
            r.size == UNKNOWN_SIZE,
    {
        RequestFile { file_name, open: false, size: UNKNOWN_SIZE }
    }

    /// The address under which the database is opened.
    pub fn database_url(&self) -> (r: String)
        ensures
            r@ == "sqlite://"@ + self.file_name@,
    {
        let mut r = "sqlite://".to_owned();
        r.append(self.file_name.as_str());
        r
    }

    /// Notes that the database was opened and holds `rows` requests.
    pub fn opened(&mut self, rows: usize)
        ensures
            *final(self) == (RequestFile { open: true, size: rows, ..*old(self) }),
    {
        self.open = true;
        self.size = rows;
    }

    /// The query for `n` rows picked at random. A row that is picked twice comes once.
    pub fn next_query(&self, n: usize) -> (r: String)
        requires
            n > 0,
            self.open,
            self.size > 0,
        ensures
            exists|ids: Seq<usize>|
                ids.len() == n && (forall|i: int|
                    0 <= i < n ==> 1 <= #[trigger] ids[i] <= self.size) && r@
                    == #[trigger] rows_query_text(ids),
    {
        let mut ids: Vec<usize> = Vec::new();
        let mut i: usize = 0;
        while i < n
            invariant
                i <= n,
                ids@.len() == i,
                self.size > 0,
                forall|k: int| 0 <= k < i ==> 1 <= #[trigger] ids@[k] <= self.size,
            decreases n - i,
        {
            ids.push(random_usize(1, self.size));
            i += 1;
        }
        rows_query(&ids)
    }

    pub fn size_hint(&self) -> (r: usize)
        ensures
            r == self.size,
    {
        self.size
    }

    /// Every node of a cluster reads the file itself.
    pub fn shared(&self) -> (r: bool)
        ensures
            r,
    {
        true
    }

    /// The file as it is described to another node: under the name that it was given.
    pub fn described(&self) -> (r: Option<RequestFile>)
        ensures
            match r {
                Some(file) => given_name(self.file_name@) == Some(file.file_name@) && !file.open
                    && file.size == UNKNOWN_SIZE,
                None => given_name(self.file_name@) is None,
            },
    {
        let parts = split(self.file_name.as_str(), '/');
        let ghost file = split_on(self.file_name@, '/').last();
        assert(texts_view(parts@).last() == file);
        let last = &parts[parts.len() - 1];
        let chars = crate::text::chars_of(last.as_str());
        let ending = crate::text::chars_of(".sqlite");
        if chars.len() < ending.len() {
            return None;
        }
        let cut: usize = chars.len() - ending.len();
        let tail = crate::text::text_of(&chars, cut, chars.len());
        assert(tail@ =~= file.skip(cut as int));
        if same_text(tail.as_str(), ".sqlite") {
            let name = crate::text::text_of(&chars, 0, cut);
            assert(name@ =~= file.take(cut as int));
            Some(RequestFile::new(name))
        } else {
            None
        }
    }
}

/// A copy is not open yet.
impl Clone for RequestFile {
    fn clone(&self) -> (r: RequestFile)
        ensures
            r.file_name@ == self.file_name@,
            !r.open,
            r.size == UNKNOWN_SIZE,
    {
        RequestFile::new(self.file_name.clone())
    }
}

impl SplitRequestFile {
    /// The same file, with a range of its own to read, from the start of that range.
    pub fn clone_with_new_range(&self, range: (usize, usize)) -> (r: SplitRequestFile)
        ensures
            r.file_name@ == self.file_name@,
            !r.open,
            r.size == self.size,
            r.range_start_inclusive == range.0,
            r.range_end_inclusive == range.1,
            r.next_read_cursor == range.0,
    {
        SplitRequestFile {
            file_name: self.file_name.clone(),
            open: false,
            size: self.size,
            range_start_inclusive: range.0,
            range_end_inclusive: range.1,
            next_read_cursor: range.0,
        }
    }
}

/// A copy is not open yet.
impl Clone for SplitRequestFile {
    fn clone(&self) -> (r: SplitRequestFile)
        ensures
            r.file_name@ == self.file_name@,
            !r.open,
            r.size == self.size,
            r.range_start_inclusive == self.range_start_inclusive,
            r.range_end_inclusive == self.range_end_inclusive,
            r.next_read_cursor == self.next_read_cursor,
    {
        SplitRequestFile {
            file_name: self.file_name.clone(),
            open: false,
            size: self.size,
            range_start_inclusive: self.range_start_inclusive,
            range_end_inclusive: self.range_end_inclusive,
            next_read_cursor: self.next_read_cursor,
        }
    }
}

// ---------------------------------------------------------------------------------------------
// Random data
// ---------------------------------------------------------------------------------------------

/// A URL with data drawn for its parameters.
pub open spec fn url_drawn(
    url: Seq<char>,
    params: Seq<UrlParam>,
    schema: DataSchema,
    r: Seq<char>,
) -> bool {
    exists|value: JsonView, external: Option<Seq<ExternalView>>| #[trigger]
        data_drawn(schema@, value, external) && encode_utf8(r) == filled(
            encode_utf8(url),
            params,
            value,
        )
}

/// A body with data drawn at random.
pub open spec fn body_drawn(schema: DataSchema, r: Seq<char>) -> bool {
    exists|value: JsonView, external: Option<Seq<ExternalView>>| #[trigger]
        data_drawn(schema@, value, external) && r == json_text_of(value)
}

impl RandomDataRequest {
    /// The parameters that are noted are those of the URL.
    pub open spec fn wf(&self) -> bool {
        self.url_param_pos matches Some(params) ==> params_of(params@, encode_utf8(self.url@))
    }

    /// Requests are sent with a body.
    pub open spec fn with_body(&self) -> bool {
        self.method@ == "POST"@ && self.body_schema is Some
    }

    /// The parameters are looked for before the first request, where there is data for them.
    pub open spec fn looks_for_params(&self) -> bool {
        !self.init && self.uri_param_schema is Some
    }

    /// The parameters of the URL get data.
    pub open spec fn with_url_data(&self) -> bool {
        self.uri_param_schema is Some && (!self.init || self.url_param_pos is Some)
    }

    /// The data of the requests can be drawn.
    pub open spec fn ready(&self) -> bool {
        &&& self.with_url_data() ==> can_draw(self.uri_param_schema->0@)
        &&& self.with_body() ==> can_draw(self.body_schema->0@)
    }

    /// `req` is a request with drawn data.
    pub open spec fn drawn(&self, req: HttpReq) -> bool {
        &&& req.id@ == ""@
        &&& req.method@ == self.method@
        &&& req.headers.entries() == self.headers.entries()
        &&& match (self.uri_param_schema, self.url_param_pos) {
            (Some(schema), Some(params)) => url_drawn(self.url@, params@, schema, req.url@),
            _ => req.url@ == self.url@,
        }
        &&& if self.with_body() {
            req.body is Some && body_drawn(self.body_schema->0, req.body->0@)
        } else {
            req.body is None
        }
    }

    /// Looks for the parameters of the URL, once.
    fn initialise(&mut self)
        requires
            old(self).wf(),
        ensures
            final(self).wf(),
            *final(self) == (RandomDataRequest {
                init: true,
                url_param_pos: final(self).url_param_pos,
                ..*old(self)
            }),
            if old(self).looks_for_params() {
                final(self).url_param_pos is Some && params_exactly(
                    final(self).url_param_pos->0@,
                    encode_utf8(old(self).url@),
                )
            } else {
                final(self).url_param_pos == old(self).url_param_pos
            },
    {
        if !self.init {
            self.init = true;
            if self.uri_param_schema.is_some() {
                let params = RandomDataRequest::find_param_positions(self.url.as_str());
                self.url_param_pos = Some(params);
            }
        }
    }

    /// The request with the given data: `url_data` in place of the parameters of the URL, and
    /// `body_data` as the body.
    pub fn request_with(&self, url_data: Option<&Json>, body_data: Option<&Json>) -> (r: HttpReq)
        requires
            self.wf(),
        ensures
            r.id@ == ""@,
            r.method@ == self.method@,
            r.headers.entries() == self.headers.entries(),
            match (url_data, self.url_param_pos) {
                (Some(data), Some(params)) => encode_utf8(r.url@) == filled(
                    encode_utf8(self.url@),
                    params@,
                    data@,
                ),
                _ => r.url@ == self.url@,
            },
            match body_data {
                Some(data) => r.body is Some && r.body->0@ == json_text_of(data@),
                None => r.body is None,
            },
    {
        let mut url = self.url.clone();
        if let Some(data) = url_data {
            if let Some(params) = &self.url_param_pos {
                RandomDataRequest::substitute_param_with_data(&mut url, params, data);
            }
        }
        let body = match body_data {
            Some(data) => Some(json_text(data)),
            None => None,
        };
        HttpReq {
            id: "".to_owned(),
            method: self.method.clone(),
            url,
            body,
            headers: self.headers.copied(),
        }
    }

    /// `n` requests, each with data drawn for it. To ask for none is a fault of the caller.
    pub fn get_n(&mut self, n: usize) -> (r: Vec<HttpReq>)
        requires
            old(self).wf(),
            n > 0,
            old(self).ready(),
        ensures
            final(self).wf(),
            *final(self) == (RandomDataRequest {
                init: true,
                url_param_pos: final(self).url_param_pos,
                ..*old(self)
            }),
            if old(self).looks_for_params() {
                final(self).url_param_pos is Some && params_exactly(
                    final(self).url_param_pos->0@,
                    encode_utf8(old(self).url@),
                )
            } else {
                final(self).url_param_pos == old(self).url_param_pos
            },
            r@.len() == n,
            forall|i: int| 0 <= i < n ==> final(self).drawn(#[trigger] r@[i]),
    {
        self.initialise();
        let mut requests: Vec<HttpReq> = Vec::new();
        let mut i: usize = 0;
        let post = same_text(self.method.as_str(), "POST");
        while i < n
            invariant
                i <= n,
                self.wf(),
                self.init,
                self.ready(),
                post == (self.method@ == "POST"@),
                requests@.len() == i,
                forall|k: int| 0 <= k < i ==> self.drawn(#[trigger] requests@[k]),
            decreases n - i,
        {
            let url_data: Option<Json> = match (&self.uri_param_schema, &self.url_param_pos) {
                (Some(schema), Some(_)) => {
                    let (data, _) = generate_data(schema);
                    Some(data)
                },
                _ => None,
            };
            let body_data: Option<Json> = match &self.body_schema {
                Some(schema) => if post {
                    let (data, _) = generate_data(schema);
                    Some(data)
                } else {
                    None
                },
                None => None,
            };
            let req = self.request_with(url_data.as_ref(), body_data.as_ref());
            assert(self.drawn(req));
            requests.push(req);
            i += 1;
        }
        requests
    }

    /// `n` requests, where their data can be drawn.
    pub fn try_get_n(&mut self, n: usize) -> (r: Option<Vec<HttpReq>>)
        requires
            old(self).wf(),
            n > 0,
        ensures
            final(self).wf(),
            match r {
                Some(list) => {
                    &&& old(self).ready()
                    &&& *final(self) == (RandomDataRequest {
                        init: true,
                        url_param_pos: final(self).url_param_pos,
                        ..*old(self)
                    })
                    &&& if old(self).looks_for_params() {
                        final(self).url_param_pos is Some && params_exactly(
                            final(self).url_param_pos->0@,
                            encode_utf8(old(self).url@),
                        )
                    } else {
                        final(self).url_param_pos == old(self).url_param_pos
                    }
                    &&& list@.len() == n
                    &&& forall|i: int| 0 <= i < n ==> final(self).drawn(#[trigger] list@[i])
                },
                None => !old(self).ready() && *final(self) == *old(self),
            },
    {
        if let Some(schema) = &self.uri_param_schema {
            if (!self.init || self.url_param_pos.is_some()) && !can_generate_data(schema) {
                return None;
            }
        }
        if let Some(schema) = &self.body_schema {
            if same_text(self.method.as_str(), "POST") && !can_generate_data(schema) {
                return None;
            }
        }
        Some(self.get_n(n))
    }

    /// Random data never runs out.
    pub fn size_hint(&self) -> (r: usize)
        ensures
            r == usize::MAX,
    {
        usize::MAX
    }

    /// Every node of a cluster draws its own data.
    pub fn shared(&self) -> (r: bool)
        ensures
            r,
    {
        true
    }
}

} // verus!
