//! Laws of the sources of requests: what is in a request that is drawn, picked or asked for.

use vstd::prelude::*;
use vstd::utf8::encode_utf8;

use crate::external_data::ExternalView;
use crate::generate::{can_generate_data, data_drawn};
use crate::generate_laws::{lemma_drawn_fits, members_fit};
use crate::http_req::{req_same, HttpReq};
use crate::json::{view_get, Json, JsonView, NumberView};
use crate::request_specs::{
    comma_list, rows_query, RandomDataRequest, RequestFile, RequestList, SplitRequestFile,
};
use crate::schema::{data_schema_from_value, DataSchema};
use crate::schema_laws::well_formed;
use crate::serde_bridge::json_text_of;
use crate::text::{decimal_text, lemma_split_tail, lemma_split_whole, split_on};
use crate::url_params::{filled, is_param, params_exactly, params_of, UrlParam};

verus! {

// ---------------------------------------------------------------------------------------------
// Parameters of a URL
// ---------------------------------------------------------------------------------------------

/// What stands in a URL in place of a parameter: a text as it is, an integer in decimal, and
/// `unknown` for any other value; the parameter itself where there is no value for it.
pub open spec fn in_place_of(name: Seq<char>, itself: Seq<u8>, data: JsonView) -> Seq<u8> {
    match view_get(data, name) {
        None => itself,
        Some(JsonView::String(text)) => encode_utf8(text),
        Some(JsonView::Number(NumberView::PosInt(n))) => if n <= i64::MAX {
            encode_utf8(decimal_text(n as nat))
        } else {
            encode_utf8("unknown"@)
        },
        Some(JsonView::Number(NumberView::NegInt(n))) => encode_utf8(
            crate::text::integer_text(n as int),
        ),
        Some(_) => encode_utf8("unknown"@),
    }
}

/// A URL from byte `from` on, read from left to right: what stands between the parameters stays, and
/// each parameter gets its value. `params` lists the parameters from right to left; the first `k` of
/// them are still to come.
pub open spec fn woven(
    bytes: Seq<u8>,
    params: Seq<UrlParam>,
    data: JsonView,
    from: int,
    k: int,
) -> Seq<u8>
    decreases k,
{
    if k <= 0 {
        bytes.skip(from)
    } else {
        let p = params[k - 1];
        bytes.subrange(from, p.start as int) + in_place_of(
            p.name@,
            bytes.subrange(p.start as int, p.end as int),
            data,
        ) + woven(bytes, params, data, p.end as int, k - 1)
    }
}

/// A URL up to byte `to`, with the parameters from number `k` on, which all end before.
spec fn woven_to(
    bytes: Seq<u8>,
    params: Seq<UrlParam>,
    data: JsonView,
    k: int,
    to: int,
) -> Seq<u8> {
    filled(bytes.take(to), params.skip(k), data)
}

proof fn lemma_replacement(bytes: Seq<u8>, p: UrlParam, data: JsonView)
    ensures
        crate::url_params::replacement(bytes, p, data) == in_place_of(
            p.name@,
            bytes.subrange(p.start as int, p.end as int),
            data,
        ),
{
    if let Some(JsonView::Number(NumberView::NegInt(n))) = view_get(data, p.name@) {
    }
}

/// What stands before the next parameter stays.
proof fn lemma_gap(
    bytes: Seq<u8>,
    params: Seq<UrlParam>,
    data: JsonView,
    k: int,
    from: int,
    to: int,
)
    requires
        params_of(params, bytes),
        0 <= k <= params.len(),
        0 <= from <= to <= bytes.len(),
        k > 0 ==> to <= params[k - 1].start,
        k == 0 ==> to == bytes.len(),
    ensures
        bytes.subrange(from, to) + woven(bytes, params, data, to, k) == woven(
            bytes,
            params,
            data,
            from,
            k,
        ),
{
    if k == 0 {
        assert(bytes.subrange(from, to) + bytes.skip(to) =~= bytes.skip(from));
    } else {
        let p = params[k - 1];
        assert(crate::url_params::describes(p, bytes));
        let value = in_place_of(p.name@, bytes.subrange(p.start as int, p.end as int), data);
        let later = woven(bytes, params, data, p.end as int, k - 1);
        assert(bytes.subrange(from, to) + (bytes.subrange(to, p.start as int) + value + later)
            =~= bytes.subrange(from, p.start as int) + value + later);
    }
}

/// Filling from the right comes to the same as reading from the left.
proof fn lemma_woven(bytes: Seq<u8>, params: Seq<UrlParam>, data: JsonView, k: int, to: int)
    requires
        params_of(params, bytes),
        0 <= k <= params.len(),
        0 <= to <= bytes.len(),
        k < params.len() ==> params[k].end <= to,
        k > 0 ==> to <= params[k - 1].start,
        k == 0 ==> to == bytes.len(),
    ensures
        woven_to(bytes, params, data, k, to) + woven(bytes, params, data, to, k) == woven(
            bytes,
            params,
            data,
            0,
            params.len() as int,
        ),
    decreases params.len() - k,
{
    let n = params.len() as int;
    let rest = params.skip(k);
    let left = bytes.take(to);
    if k == n {
        assert(rest =~= Seq::empty());
        assert(left =~= bytes.subrange(0, to));
        lemma_gap(bytes, params, data, k, 0, to);
    } else {
        let p = params[k];
        assert(crate::url_params::describes(p, bytes));
        let start = p.start as int;
        let end = p.end as int;
        let inner = woven_to(bytes, params, data, k + 1, start);
        let value = in_place_of(p.name@, bytes.subrange(start, end), data);
        let middle = bytes.subrange(end, to);
        let later = woven(bytes, params, data, to, k);
        assert(woven_to(bytes, params, data, k, to) == inner + value + middle) by {
            assert(rest[0] == p);
            assert(rest.skip(1) =~= params.skip(k + 1));
            assert(left.take(start) =~= bytes.take(start));
            assert(left.subrange(start, end) =~= bytes.subrange(start, end));
            assert(left.skip(end) =~= middle);
            lemma_replacement(left, p, data);
        }
        if k + 1 < n {
            assert(params[k + 1].end <= p.start);
        }
        lemma_woven(bytes, params, data, k + 1, start);
        lemma_gap(bytes, params, data, k, end, to);
        let after = woven(bytes, params, data, end, k);
        assert(woven(bytes, params, data, start, k + 1) == value + after) by {
            assert(bytes.subrange(start, start) =~= Seq::empty());
            assert(Seq::<u8>::empty() + value =~= value);
        }
        assert((inner + value + middle) + later =~= inner + (value + (middle + later)));
    }
}

/// Filling in the parameters of a URL: every `{name}` in it gets the value of that name, and
/// everything else stays.
pub proof fn lemma_url_is_filled(
    url: &mut String,
    template: &str,
    params: Vec<UrlParam>,
    data: Json,
)
    requires
        template@ == old(url)@,
        call_ensures(RandomDataRequest::find_param_positions, (template,), params),
        call_ensures(RandomDataRequest::substitute_param_with_data, (url, &params, &data), ()),
    ensures
        forall|start: int, end: int| #[trigger]
            is_param(encode_utf8(template@), start, end) <==> exists|k: int|
                0 <= k < params@.len() && (#[trigger] params@[k]).start == start && params@[k].end
                    == end,
        forall|k: int|
            0 <= k < params@.len() ==> (#[trigger] params@[k]).name@
                == crate::url_params::ascii_text(
                encode_utf8(template@).subrange(params@[k].start + 1, params@[k].end - 1),
            ),
        encode_utf8(final(url)@) == woven(
            encode_utf8(template@),
            params@,
            data@,
            0,
            params@.len() as int,
        ),
{
    let bytes = encode_utf8(template@);
    lemma_woven(bytes, params@, data@, 0, bytes.len() as int);
    assert(params@.skip(0) =~= params@);
    assert(bytes.take(bytes.len() as int) =~= bytes);
    assert(bytes.skip(bytes.len() as int) =~= Seq::empty());
    assert(filled(bytes, params@, data@) + Seq::<u8>::empty() =~= filled(bytes, params@, data@));
    assert forall|start: int, end: int| (exists|k: int|
        0 <= k < params@.len() && (#[trigger] params@[k]).start == start && params@[k].end
            == end) implies #[trigger] is_param(bytes, start, end) by {
        let k = choose|k: int|
            0 <= k < params@.len() && (#[trigger] params@[k]).start == start && params@[k].end
                == end;
        assert(crate::url_params::describes(params@[k], bytes));
    }
    assert forall|k: int| 0 <= k < params@.len() implies (#[trigger] params@[k]).name@
        == crate::url_params::ascii_text(
        bytes.subrange(params@[k].start + 1, params@[k].end - 1),
    ) by {
        assert(crate::url_params::describes(params@[k], bytes));
    }
}

// ---------------------------------------------------------------------------------------------
// Random data
// ---------------------------------------------------------------------------------------------

/// Requests with random data: as many as asked for, each with the method and the headers of the
/// source; a body where the method is POST and there is a schema for it, and then the text of a value
/// that fits the document of the schema; none otherwise. Without a schema for its parameters the URL
/// is that of the source.
pub proof fn lemma_random_requests(
    source: &mut RandomDataRequest,
    n: usize,
    document: Json,
    properties: Seq<(Seq<char>, JsonView)>,
    schema: DataSchema,
    r: Vec<HttpReq>,
)
    requires
        old(source).wf(),
        n > 0,
        old(source).ready(),
        well_formed(document@),
        view_get(document@, "properties"@) == Some(JsonView::Object(properties)),
        call_ensures(data_schema_from_value, (&document,), Ok(schema)),
        old(source).body_schema matches Some(s) ==> s@ == schema@,
        call_ensures(RandomDataRequest::get_n, (source, n), r),
    ensures
        r@.len() == n,
        forall|i: int|
            0 <= i < n ==> {
                let req = #[trigger] r@[i];
                &&& req.method@ == old(source).method@
                &&& req.headers.entries() == old(source).headers.entries()
                &&& old(source).uri_param_schema is None ==> req.url@ == old(source).url@
                &&& req.body is Some <==> old(source).method@ == "POST"@
                    && old(source).body_schema is Some
                &&& req.body matches Some(text) ==> exists|value: JsonView|
                    text@ == json_text_of(value) && value is Object && #[trigger] members_fit(
                        properties,
                        value->Object_0,
                    )
            },
{
    assert forall|i: int| 0 <= i < n implies {
        let req = #[trigger] r@[i];
        &&& req.method@ == old(source).method@
        &&& req.headers.entries() == old(source).headers.entries()
        &&& old(source).uri_param_schema is None ==> req.url@ == old(source).url@
        &&& req.body is Some <==> old(source).method@ == "POST"@ && old(source).body_schema is Some
        &&& req.body matches Some(text) ==> exists|value: JsonView|
            text@ == json_text_of(value) && value is Object && #[trigger] members_fit(
                properties,
                value->Object_0,
            )
    } by {
        let req = r@[i];
        assert(final(source).drawn(req));
        if let Some(text) = req.body {
            let (value, external) = choose|value: JsonView, external: Option<Seq<ExternalView>>|
             #[trigger]
                data_drawn(old(source).body_schema->0@, value, external) && text@ == json_text_of(
                    value,
                );
            lemma_drawn_fits(document, properties, schema, value, external);
        }
    }
}

/// The same of requests that are made where their data can be drawn: they are made exactly where data
/// can be drawn for the schemas that they need.
pub proof fn lemma_random_requests_tried(
    source: &mut RandomDataRequest,
    n: usize,
    document: Json,
    properties: Seq<(Seq<char>, JsonView)>,
    schema: DataSchema,
    r: Option<Vec<HttpReq>>,
    body_drawn: bool,
    url_drawn: bool,
)
    requires
        old(source).wf(),
        n > 0,
        well_formed(document@),
        view_get(document@, "properties"@) == Some(JsonView::Object(properties)),
        call_ensures(data_schema_from_value, (&document,), Ok(schema)),
        old(source).body_schema matches Some(s) ==> s@ == schema@,
        call_ensures(RandomDataRequest::try_get_n, (source, n), r),
        old(source).body_schema matches Some(s) ==> call_ensures(
            can_generate_data,
            (&s,),
            body_drawn,
        ),
        old(source).uri_param_schema matches Some(s) ==> call_ensures(
            can_generate_data,
            (&s,),
            url_drawn,
        ),
    ensures
        (old(source).body_schema is Some ==> body_drawn) && (old(source).uri_param_schema is Some
            ==> url_drawn) ==> r is Some,
        old(source).method@ == "POST"@ && old(source).body_schema is Some && !body_drawn
            ==> r is None,
        !old(source).init && old(source).uri_param_schema is Some && !url_drawn ==> r is None,
        r is None ==> *final(source) == *old(source),
        r is Some ==> r->0@.len() == n,
        r is Some ==> forall|i: int|
            0 <= i < n ==> {
                let req = #[trigger] r->0@[i];
                &&& req.method@ == old(source).method@
                &&& req.headers.entries() == old(source).headers.entries()
                &&& old(source).uri_param_schema is None ==> req.url@ == old(source).url@
                &&& req.body is Some <==> old(source).method@ == "POST"@
                    && old(source).body_schema is Some
                &&& req.body matches Some(text) ==> exists|value: JsonView|
                    text@ == json_text_of(value) && value is Object && #[trigger] members_fit(
                        properties,
                        value->Object_0,
                    )
            },
{
    assert forall|i: int| 0 <= i < n && r is Some implies {
        let req = #[trigger] r->0@[i];
        &&& req.method@ == old(source).method@
        &&& req.headers.entries() == old(source).headers.entries()
        &&& old(source).uri_param_schema is None ==> req.url@ == old(source).url@
        &&& req.body is Some <==> old(source).method@ == "POST"@ && old(source).body_schema is Some
        &&& req.body matches Some(text) ==> exists|value: JsonView|
            text@ == json_text_of(value) && value is Object && #[trigger] members_fit(
                properties,
                value->Object_0,
            )
    } by {
        let req = r->0@[i];
        assert(final(source).drawn(req));
        if let Some(text) = req.body {
            let (value, external) = choose|value: JsonView, external: Option<Seq<ExternalView>>|
             #[trigger]
                data_drawn(old(source).body_schema->0@, value, external) && text@ == json_text_of(
                    value,
                );
            lemma_drawn_fits(document, properties, schema, value, external);
        }
    }
}

/// Requests whose URL has parameters: the values that stand there are those of a value that fits the
/// document of their schema, under the names of the parameters.
pub proof fn lemma_random_urls(
    source: &mut RandomDataRequest,
    n: usize,
    document: Json,
    properties: Seq<(Seq<char>, JsonView)>,
    schema: DataSchema,
    r: Vec<HttpReq>,
    i: int,
)
    requires
        old(source).wf(),
        !old(source).init,
        0 <= i < n,
        old(source).ready(),
        well_formed(document@),
        view_get(document@, "properties"@) == Some(JsonView::Object(properties)),
        call_ensures(data_schema_from_value, (&document,), Ok(schema)),
        old(source).uri_param_schema matches Some(s) && s@ == schema@,
        call_ensures(RandomDataRequest::get_n, (source, n), r),
    ensures
        final(source).url_param_pos is Some,
        params_exactly(final(source).url_param_pos->0@, encode_utf8(old(source).url@)),
        exists|value: JsonView|
            {
                let params = final(source).url_param_pos->0@;
                &&& value is Object
                &&& #[trigger] members_fit(properties, value->Object_0)
                &&& encode_utf8(r@[i].url@) == woven(
                    encode_utf8(old(source).url@),
                    params,
                    value,
                    0,
                    params.len() as int,
                )
            },
{
    let params = final(source).url_param_pos->0@;
    let bytes = encode_utf8(old(source).url@);
    assert(final(source).drawn(r@[i]));
    let (value, external) = choose|value: JsonView, external: Option<Seq<ExternalView>>| #[trigger]
        data_drawn(old(source).uri_param_schema->0@, value, external) && encode_utf8(r@[i].url@)
            == filled(bytes, params, value);
    lemma_drawn_fits(document, properties, schema, value, external);
    lemma_woven(bytes, params, value, 0, bytes.len() as int);
    assert(params.skip(0) =~= params);
    assert(bytes.take(bytes.len() as int) =~= bytes);
    assert(bytes.skip(bytes.len() as int) =~= Seq::empty());
    assert(filled(bytes, params, value) + Seq::<u8>::empty() =~= filled(bytes, params, value));
}

/// A request with given data: the body is the text of the one value, and the parameters of the URL
/// get the members of the other.
pub proof fn lemma_request_with(
    source: RandomDataRequest,
    url_data: Option<&Json>,
    body_data: Option<&Json>,
    r: HttpReq,
)
    requires
        source.wf(),
        call_ensures(RandomDataRequest::request_with, (&source, url_data, body_data), r),
    ensures
        r.method@ == source.method@,
        r.headers.entries() == source.headers.entries(),
        body_data matches Some(data) ==> r.body matches Some(text) && text@ == json_text_of(data@),
        body_data is None ==> r.body is None,
        url_data is None || source.url_param_pos is None ==> r.url@ == source.url@,
        url_data matches Some(data) ==> source.url_param_pos matches Some(params) ==> encode_utf8(
            r.url@,
        ) == woven(encode_utf8(source.url@), params@, data@, 0, params@.len() as int),
{
    if let (Some(data), Some(params)) = (url_data, source.url_param_pos) {
        let bytes = encode_utf8(source.url@);
        lemma_woven(bytes, params@, data@, 0, bytes.len() as int);
        assert(params@.skip(0) =~= params@);
        assert(bytes.take(bytes.len() as int) =~= bytes);
        assert(bytes.skip(bytes.len() as int) =~= Seq::empty());
        assert(filled(bytes, params@, data@) + Seq::<u8>::empty() =~= filled(
            bytes,
            params@,
            data@,
        ));
    }
}

// ---------------------------------------------------------------------------------------------
// Lists and files
// ---------------------------------------------------------------------------------------------

/// A request is one of a list.
pub open spec fn among(req: HttpReq, list: Seq<HttpReq>) -> bool {
    exists|j: int| 0 <= j < list.len() && req_same(req, #[trigger] list[j])
}

/// A list gives as many requests as are asked for, each one of its own; an empty one gives none, and
/// says so. Requests that are picked by their places are those at the places.
pub proof fn lemma_list_requests(
    list: RequestList,
    n: usize,
    r: Result<Vec<HttpReq>, String>,
    places: Vec<usize>,
    picked: Vec<HttpReq>,
)
    requires
        n > 0,
        call_ensures(RequestList::get_n, (&list, n), r),
        forall|i: int| 0 <= i < places@.len() ==> #[trigger] places@[i] < list.data@.len(),
        call_ensures(RequestList::pick, (&list, &places), picked),
    ensures
        r is Err <==> list.data@.len() == 0,
        r matches Err(e) ==> e@ == "No Data Found"@,
        r matches Ok(requests) ==> requests@.len() == n && forall|i: int|
            0 <= i < n ==> among(#[trigger] requests@[i], list.data@),
        picked@.len() == places@.len(),
        forall|i: int|
            0 <= i < places@.len() ==> req_same(
                #[trigger] picked@[i],
                list.data@[places@[i] as int],
            ),
{
    if let Ok(requests) = r {
        assert forall|i: int| 0 <= i < n implies among(#[trigger] requests@[i], list.data@) by {
            assert(crate::request_specs::is_one_of(requests@[i], list.data@));
        }
    }
}

/// Numbers in decimal.
pub open spec fn decimals(ids: Seq<usize>) -> Seq<Seq<char>> {
    Seq::new(ids.len(), |i: int| decimal_text(ids[i] as nat))
}

proof fn lemma_no_comma(n: nat)
    ensures
        !decimal_text(n).contains(','),
    decreases n,
{
    if n >= 10 {
        lemma_no_comma(n / 10);
    }
    let text = decimal_text(n);
    if text.contains(',') {
        let i = choose|i: int| 0 <= i < text.len() && text[i] == ',';
        if n >= 10 && i < text.len() - 1 {
            assert(decimal_text(n / 10)[i] == ',');
        }
    }
}

proof fn lemma_comma_list(ids: Seq<usize>)
    requires
        ids.len() > 0,
    ensures
        split_on(comma_list(ids), ',') == decimals(ids),
    decreases ids.len(),
{
    let last = ids.last();
    lemma_no_comma(last as nat);
    if ids.len() == 1 {
        lemma_split_whole(decimal_text(ids[0] as nat), ',');
        assert(seq![decimal_text(ids[0] as nat)] =~= decimals(ids));
    } else {
        lemma_comma_list(ids.drop_last());
        lemma_split_tail(comma_list(ids.drop_last()), decimal_text(last as nat), ',');
        assert(decimals(ids.drop_last()).push(decimal_text(last as nat)) =~= decimals(ids));
    }
}

/// The query for rows names exactly the rows that are asked for, in decimal and with commas between
/// them.
pub proof fn lemma_rows_query(ids: Vec<usize>, r: String)
    requires
        ids@.len() > 0,
        call_ensures(rows_query, (&ids,), r),
    ensures
        exists|list: Seq<char>|
            r@ == "SELECT ROWID, * FROM http_req WHERE ROWID IN ("@ + list + ")"@
                && #[trigger] split_on(list, ',') == decimals(ids@),
{
    lemma_comma_list(ids@);
    reveal_strlit(")");
    assert(seq![')'] =~= ")"@);
}

/// The query for some rows of a file names so many of its rows, from the first to the last.
pub proof fn lemma_file_query(file: RequestFile, n: usize, r: String)
    requires
        n > 0,
        file.open,
        file.size > 0,
        call_ensures(RequestFile::next_query, (&file, n), r),
    ensures
        exists|ids: Seq<usize>, list: Seq<char>|
            {
                &&& ids.len() == n
                &&& forall|i: int| 0 <= i < n ==> 1 <= #[trigger] ids[i] <= file.size
                &&& r@ == "SELECT ROWID, * FROM http_req WHERE ROWID IN ("@ + list + ")"@
                &&& #[trigger] split_on(list, ',') == #[trigger] decimals(ids)
            },
{
    let ids = choose|ids: Seq<usize>|
        ids.len() == n && (forall|i: int| 0 <= i < n ==> 1 <= #[trigger] ids[i] <= file.size)
            && r@ == #[trigger] crate::request_specs::rows_query_text(ids);
    lemma_comma_list(ids);
    reveal_strlit(")");
    assert(seq![')'] =~= ")"@);
    assert(split_on(comma_list(ids), ',') == decimals(ids));
}

/// A file is not open until it was opened, and knows the number of its rows then.
pub proof fn lemma_file_opened(name: String, made: RequestFile, file: &mut RequestFile, rows: usize)
    requires
        call_ensures(RequestFile::new, (name,), made),
        *old(file) == made,
        call_ensures(RequestFile::opened, (file, rows), ()),
    ensures
        !made.open,
        made.file_name@ == name@,
        final(file).open,
        final(file).size == rows,
        final(file).file_name@ == name@,
{
}

/// A part of a file has its own range of rows, from which it reads from the start on; the rest is as
/// it was.
pub proof fn lemma_file_part(file: SplitRequestFile, range: (usize, usize), r: SplitRequestFile)
    requires
        call_ensures(SplitRequestFile::clone_with_new_range, (&file, range), r),
    ensures
        r.file_name@ == file.file_name@,
        r.size == file.size,
        (r.range_start_inclusive, r.range_end_inclusive) == range,
        r.next_read_cursor == range.0,
        !r.open,
{
}

} // verus!
