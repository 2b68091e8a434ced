//! Laws of files of requests: what is read from rows, written into a database and sent.

use vstd::prelude::*;
use vstd::utf8::encode_utf8;

use crate::http_api::{GenericError, GenericResponse};
use crate::http_req::{is_method, HttpReq};
use crate::json::{lemma_key_index, lemma_set_entry, lookup, unique_keys, JsonView};
use crate::response_assert::UriParts;
use crate::serde_bridge::{json_of, json_text_of};
use crate::text::natural_value;
use crate::text_map::{map_texts, TextMap};
use crate::upload::{
    all_strings, headers_text, needs_room, parse_headers, req_from_row, string_members,
    try_req_from_row, upload_response, CsvImport, FileParts, HttpReqCsvHelper, InsertedRow,
    PartStep, RowError,
};

verus! {

/// A value stands under a name.
pub open spec fn says(
    entries: Seq<(Seq<char>, String)>,
    name: Seq<char>,
    value: Seq<char>,
) -> bool {
    exists|k: int| 0 <= k < entries.len() && (#[trigger] entries[k]).0 == name && entries[k].1@
        == value
}

/// No later member has the name of the member at `i`.
pub open spec fn counts<T>(e: Seq<(Seq<char>, T)>, i: int) -> bool {
    0 <= i < e.len() && forall|j: int| i < j < e.len() ==> (#[trigger] e[j]).0 != e[i].0
}

proof fn lemma_members(e: Seq<(Seq<char>, JsonView)>)
    ensures
        unique_keys(string_members(e)),
        forall|i: int|
            #[trigger] counts(e, i) ==> lookup(string_members(e), e[i].0) == Some(
                e[i].1->String_0,
            ),
        forall|name: Seq<char>|
            #[trigger] lookup(string_members(e), name) is Some ==> exists|i: int|
                #[trigger] counts(e, i) && e[i].0 == name,
    decreases e.len(),
{
    if e.len() > 0 {
        let front = e.drop_last();
        lemma_members(front);
        lemma_set_entry(string_members(front), e.last().0, e.last().1->String_0);
        assert forall|i: int| #[trigger] counts(e, i) implies lookup(string_members(e), e[i].0)
            == Some(e[i].1->String_0) by {
            if i < front.len() {
                assert forall|j: int| i < j < front.len() implies (#[trigger] front[j]).0
                    != front[i].0 by {
                    assert(e[j].0 != e[i].0);
                }
                assert(counts(front, i));
                assert(e[e.len() - 1].0 != e[i].0);
            }
        }
        assert forall|name: Seq<char>| #[trigger]
            lookup(string_members(e), name) is Some implies exists|i: int| #[trigger]
            counts(e, i) && e[i].0 == name by {
            if name == e.last().0 {
                assert(counts(e, e.len() - 1));
            } else {
                assert(lookup(string_members(front), name) is Some);
                let i = choose|i: int| #[trigger] counts(front, i) && front[i].0 == name;
                assert forall|j: int| i < j < e.len() implies (#[trigger] e[j]).0 != e[i].0 by {
                    if j < front.len() {
                        assert(front[j].0 != front[i].0);
                    }
                }
                assert(counts(e, i));
            }
        }
    }
}

/// Headers are read exactly from an object of strings. Every member that no later one replaces is
/// a header, no header comes from elsewhere, and none occurs twice.
pub proof fn lemma_headers_read(text: &str, r: Option<TextMap<String>>)
    requires
        call_ensures(parse_headers, (text,), r),
    ensures
        match json_of(encode_utf8(text@)) {
            Ok(JsonView::Object(e)) => {
                &&& r is Some <==> forall|i: int| 0 <= i < e.len() ==> (#[trigger] e[i]).1 is String
                &&& r matches Some(headers) ==> {
                    &&& forall|i: int|
                        #[trigger] counts(e, i) ==> says(
                            headers.entries(),
                            e[i].0,
                            e[i].1->String_0,
                        )
                    &&& forall|k: int|
                        0 <= k < headers.entries().len() ==> exists|i: int| #[trigger]
                            counts(e, i) && (#[trigger] headers.entries()[k]).0 == e[i].0
                                && e[i].1 == JsonView::String(headers.entries()[k].1@)
                    &&& forall|k: int, l: int|
                        0 <= k < l < headers.entries().len() ==> (#[trigger] headers.entries()[k]).0
                            != (#[trigger] headers.entries()[l]).0
                }
            },
            _ => r is None,
        },
{
    if let Ok(JsonView::Object(e)) = json_of(encode_utf8(text@)) {
        assert(all_strings(e) <==> forall|i: int|
            0 <= i < e.len() ==> (#[trigger] e[i]).1 is String);
        if let Some(headers) = r {
            lemma_members(e);
            let texts = map_texts(headers.entries());
            assert(texts == string_members(e));
            assert forall|i: int| #[trigger] counts(e, i) implies says(
                headers.entries(),
                e[i].0,
                e[i].1->String_0,
            ) by {
                lemma_key_index(texts, e[i].0);
                let k = crate::json::key_index(texts, e[i].0);
                assert(headers.entries()[k].0 == texts[k].0);
            }
            assert forall|k: int| 0 <= k < headers.entries().len() implies exists|i: int|
                #[trigger] counts(e, i) && (#[trigger] headers.entries()[k]).0 == e[i].0 && e[i].1
                    == JsonView::String(headers.entries()[k].1@) by {
                let name = headers.entries()[k].0;
                assert(texts[k].0 == name);
                crate::json::lemma_unique_index(texts, k);
                assert(lookup(texts, name) == Some(texts[k].1));
                let i = choose|i: int| #[trigger] counts(e, i) && e[i].0 == name;
                assert(e[i].1 is String);
            }
        }
    }
}

/// Headers are written as an object of strings, in order.
pub proof fn lemma_headers_written(headers: TextMap<String>, r: String, v: JsonView)
    requires
        call_ensures(headers_text, (&headers,), r),
        v is Object,
        v->Object_0.len() == headers.entries().len(),
        forall|i: int|
            0 <= i < headers.entries().len() ==> #[trigger] v->Object_0[i] == (
                headers.entries()[i].0,
                JsonView::String(headers.entries()[i].1@),
            ),
    ensures
        r@ == json_text_of(v),
{
    assert(v->Object_0 =~= crate::upload::headers_json(map_texts(headers.entries()))->Object_0);
}

/// A row is a request exactly where its address, its method and its headers can be read; the
/// first of them that cannot is what is wrong with it.
pub proof fn lemma_row(
    row: HttpReqCsvHelper,
    url: &str,
    headers: &str,
    parts: Option<UriParts>,
    read: Option<TextMap<String>>,
    r: Result<HttpReq, RowError>,
)
    requires
        url@ == row.url@,
        headers@ == row.headers@,
        call_ensures(UriParts::parse, (url,), parts),
        call_ensures(parse_headers, (headers,), read),
        call_ensures(HttpReqCsvHelper::try_into, (row,), r),
    ensures
        parts is None <==> r == Err::<HttpReq, RowError>(RowError::InvalidUrl),
        parts is Some && !is_method(row.method@) <==> r == Err::<HttpReq, RowError>(
            RowError::InvalidMethod,
        ),
        parts is Some && is_method(row.method@) && read is None <==> r == Err::<HttpReq, RowError>(
            RowError::InvalidHeaders,
        ),
        r matches Ok(req) ==> {
            &&& req.method@ == row.method@
            &&& req.url@ == row.url@
            &&& req.body == row.body
            &&& map_texts(req.headers.entries()) == map_texts(read->0.entries())
        },
{
}

/// What is written of a row says what the row says, and its headers as they were read.
pub proof fn lemma_row_written(
    import: &mut CsvImport,
    row: HttpReqCsvHelper,
    req: Result<HttpReq, RowError>,
    headers: String,
    r: Option<InsertedRow>,
)
    requires
        old(import).success < usize::MAX,
        call_ensures(CsvImport::on_row, (import, Some(row)), r),
        call_ensures(HttpReqCsvHelper::try_into, (row,), req),
        req matches Ok(q) ==> call_ensures(headers_text, (&q.headers,), headers),
    ensures
        r is Some <==> req is Ok,
        r matches Some(written) ==> {
            &&& written.url@ == row.url@
            &&& written.method@ == row.method@
            &&& written.body == row.body
            &&& written.headers@ == headers@
        },
{
}

/// How many of the first `k` rows were written.
pub open spec fn written(given: Seq<Option<InsertedRow>>, k: nat) -> nat
    decreases k,
{
    if k == 0 {
        0
    } else {
        (written(given, (k - 1) as nat) + if given[k - 1] is Some {
            1nat
        } else {
            0nat
        }) as nat
    }
}

/// Over a whole file the count is the number of rows that were written, and rows that could not
/// be read are not.
pub proof fn lemma_rows_counted(
    made: CsvImport,
    rows: Seq<Option<HttpReqCsvHelper>>,
    calls: Seq<&mut CsvImport>,
    given: Seq<Option<InsertedRow>>,
    k: nat,
)
    requires
        call_ensures(CsvImport::new, (), made),
        rows.len() == calls.len() == given.len() < usize::MAX,
        k < calls.len(),
        *calls[0] == made,
        forall|i: int, j: int|
            #![trigger calls[i], calls[j]]
            0 <= i && j == i + 1 && j < calls.len() ==> *calls[j] == *final(calls[i]),
        forall|i: int|
            #![trigger calls[i]]
            0 <= i < calls.len() ==> call_ensures(CsvImport::on_row, (calls[i], rows[i]), given[i]),
    ensures
        calls[k as int].success == written(given, k),
        final(calls[k as int]).success == written(given, k + 1),
        written(given, k + 1) <= k + 1,
        rows[k as int] is None ==> given[k as int] is None,
    decreases k,
{
    if k > 0 {
        lemma_rows_counted(made, rows, calls, given, (k - 1) as nat);
        assert(*calls[k as int] == *final(calls[k - 1]));
    }
    assert(call_ensures(
        CsvImport::on_row,
        (calls[k as int], rows[k as int]),
        given[k as int],
    ));
    assert(written(given, k + 1) == written(given, k) + if given[k as int] is Some {
        1nat
    } else {
        0nat
    });
}

/// The answer to an upload names the file and gives a number that reads as the count.
pub proof fn lemma_upload_answer(
    file_name: String,
    valid_count: Option<usize>,
    r: Result<GenericResponse<String>, GenericError>,
)
    requires
        call_ensures(upload_response, (file_name, valid_count), r),
    ensures
        r is Ok <==> valid_count is Some,
        r matches Ok(answer) ==> {
            &&& answer.data.entries().len() == 2
            &&& says(answer.data.entries(), "file"@, file_name@)
            &&& answer.data.entries()[1].0 == "valid_count"@
            &&& natural_value(answer.data.entries()[1].1@) == Some(valid_count->0 as nat)
        },
        r matches Err(e) ==> e.error_code == 65535 && e.message@ == "Unknown error."@,
{
    if let Ok(answer) = r {
        assert(answer.data.entries()[0].0 == "file"@);
        crate::text::lemma_decimal_round_trip(valid_count->0 as nat);
    }
}

/// The request of a row of a database says what the row says. Its headers are those that are
/// read, and none where none can be read.
pub proof fn lemma_database_row(
    id: i64,
    method: &str,
    url: String,
    body: Option<String>,
    headers: &str,
    read: Option<TextMap<String>>,
    r: Option<HttpReq>,
)
    requires
        call_ensures(try_req_from_row, (id, method, url, body, headers), r),
        call_ensures(parse_headers, (headers,), read),
    ensures
        r is Some <==> is_method(method@),
        r matches Some(req) ==> {
            &&& req.method@ == method@
            &&& req.url@ == url@
            &&& req.body == body
            &&& id >= 0 ==> natural_value(req.id@) == Some(id as nat)
            &&& id < 0 ==> req.id@.len() > 0 && req.id@[0] == '-' && natural_value(
                req.id@.skip(1),
            ) == Some((-id) as nat)
            &&& read is Some ==> map_texts(req.headers.entries()) == map_texts(read->0.entries())
            &&& read is None ==> req.headers.entries().len() == 0
        },
{
    if let Some(req) = r {
        lemma_id(id, req.id@);
    }
}

proof fn lemma_id(id: i64, text: Seq<char>)
    requires
        text == crate::text::integer_text(id as int),
    ensures
        id >= 0 ==> natural_value(text) == Some(id as nat),
        id < 0 ==> text.len() > 0 && text[0] == '-' && natural_value(text.skip(1)) == Some(
            (-id) as nat,
        ),
{
    reveal_strlit("-");
    if id >= 0 {
        crate::text::lemma_decimal_round_trip(id as nat);
    } else {
        crate::text::lemma_decimal_round_trip((-id) as nat);
        assert(text.skip(1) =~= crate::text::decimal_text((-id) as nat));
    }
}

/// The same of a row whose method is known.
pub proof fn lemma_database_row_known(
    id: i64,
    method: String,
    url: String,
    body: Option<String>,
    headers: &str,
    read: Option<TextMap<String>>,
    r: HttpReq,
)
    requires
        is_method(method@),
        call_ensures(req_from_row, (id, method, url, body, headers), r),
        call_ensures(parse_headers, (headers,), read),
    ensures
        r.method@ == method@,
        r.url@ == url@,
        r.body == body,
        id >= 0 ==> natural_value(r.id@) == Some(id as nat),
        read is Some ==> map_texts(r.headers.entries()) == map_texts(read->0.entries()),
        read is None ==> r.headers.entries().len() == 0,
{
    lemma_id(id, r.id@);
}

/// How many bytes are sent of `n` that were read.
pub open spec fn sent(step: PartStep, n: u64) -> int {
    match step {
        PartStep::All => n as int,
        PartStep::First(m) => m as int,
        PartStep::End => 0,
    }
}

/// How many bytes are sent of the first `k` reads.
pub open spec fn sent_in_all(steps: Seq<PartStep>, reads: Seq<u64>, k: nat) -> int
    decreases k,
{
    if k == 0 {
        0
    } else {
        sent_in_all(steps, reads, (k - 1) as nat) + sent(steps[k - 1], reads[k - 1])
    }
}

/// Of every read as much is sent as was asked for and not sent yet. All is done exactly when
/// as many bytes were sent as were asked for.
pub proof fn lemma_file_sent(
    start: u64,
    end: u64,
    made: FileParts,
    reads: Seq<u64>,
    calls: Seq<&mut FileParts>,
    steps: Seq<PartStep>,
    done: bool,
    k: nat,
)
    requires
        start <= end,
        call_ensures(FileParts::new, (start, end), made),
        reads.len() == calls.len() == steps.len(),
        k < calls.len(),
        *calls[0] == made,
        forall|i: int| #![trigger calls[i]] 0 <= i < calls.len() ==> calls[i].left > 0,
        forall|i: int, j: int|
            #![trigger calls[i], calls[j]]
            0 <= i && j == i + 1 && j < calls.len() ==> *calls[j] == *final(calls[i]),
        forall|i: int|
            #![trigger calls[i]]
            0 <= i < calls.len() ==> call_ensures(
                FileParts::on_read,
                (calls[i], reads[i]),
                steps[i],
            ),
        call_ensures(FileParts::is_done, (&*final(calls[k as int]),), done),
    ensures
        ({
            let left = end - start - sent_in_all(steps, reads, k);
            &&& sent(steps[k as int], reads[k as int]) == if reads[k as int] < left {
                reads[k as int] as int
            } else {
                left
            }
            &&& steps[k as int] == PartStep::End <==> reads[k as int] == 0
            &&& steps[k as int] == PartStep::All <==> 0 < reads[k as int] <= left
            &&& done <==> sent_in_all(steps, reads, k + 1) == end - start
        }),
{
    lemma_file_left(start, end, made, reads, calls, steps, k);
}

proof fn lemma_file_left(
    start: u64,
    end: u64,
    made: FileParts,
    reads: Seq<u64>,
    calls: Seq<&mut FileParts>,
    steps: Seq<PartStep>,
    k: nat,
)
    requires
        start <= end,
        call_ensures(FileParts::new, (start, end), made),
        reads.len() == calls.len() == steps.len(),
        k < calls.len(),
        *calls[0] == made,
        forall|i: int| #![trigger calls[i]] 0 <= i < calls.len() ==> calls[i].left > 0,
        forall|i: int, j: int|
            #![trigger calls[i], calls[j]]
            0 <= i && j == i + 1 && j < calls.len() ==> *calls[j] == *final(calls[i]),
        forall|i: int|
            #![trigger calls[i]]
            0 <= i < calls.len() ==> call_ensures(
                FileParts::on_read,
                (calls[i], reads[i]),
                steps[i],
            ),
    ensures
        calls[k as int].left == end - start - sent_in_all(steps, reads, k),
        final(calls[k as int]).left == end - start - sent_in_all(steps, reads, k + 1),
        call_ensures(
            FileParts::on_read,
            (calls[k as int], reads[k as int]),
            steps[k as int],
        ),
        calls[k as int].left > 0,
    decreases k,
{
    if k > 0 {
        lemma_file_left(start, end, made, reads, calls, steps, (k - 1) as nat);
        assert(*calls[k as int] == *final(calls[k - 1]));
    }
    assert(call_ensures(
        FileParts::on_read,
        (calls[k as int], reads[k as int]),
        steps[k as int],
    ));
    assert(calls[k as int].left > 0);
    assert(sent_in_all(steps, reads, k + 1) == sent_in_all(steps, reads, k) + sent(
        steps[k as int],
        reads[k as int],
    ));
}

/// A buffer needs no more room exactly where what it holds and what is added fit it.
pub proof fn lemma_room(capacity: usize, len: usize, room: usize, r: bool)
    requires
        len <= capacity,
        call_ensures(needs_room, (capacity, len, room), r),
    ensures
        !r <==> len + room <= capacity,
{
}

} // verus!
