//! Laws of what a node does with what it is asked, and of the ids that it gives.

use vstd::prelude::*;

use crate::http_api::{GenericError, JobStatusQueryParams, Response};
use crate::job_ids::{
    is_job_id, is_white_space, job_id, job_id_with, lemma_job_id, lemma_sub_job_id, name_text,
    sub_job_id, trim, trimmed, trimmed_end, trimmed_start,
};
use crate::jobs::{ErrorCode, JobStatus};
use crate::random::is_uuid;
use crate::request::{MultiRequest, Request};
use crate::request_specs::RequestSpecEnum;
use crate::response_assert::ResponseAssertion;
use crate::routing::{
    check_source, conclude, data_file_uri, download_uri, find_port, forwarded, handle_multi_request,
    handle_request, handover, inactive_cluster_error, join_lines, joined_url, lines_text, lua_chunk,
    needed_file, pre_check, primary_uri, route, route_multi, route_other, start, start_all,
    status_uri, stop_uri, unknown_error_resp, upload_uri, ClusterView, Handover, MultiStep,
    NodePort, Route, TestStep,
};
use crate::schema::DataSchema;
use crate::text::{decimal_text, natural_value};
use crate::text_laws::{between, digits, worth};

verus! {

// ---------------------------------------------------------------------------------------------
// Ids
// ---------------------------------------------------------------------------------------------

/// A character that shows nothing.
pub open spec fn blank(c: char) -> bool {
    ||| c == ' ' || c == '\u{85}' || c == '\u{a0}' || c == '\u{1680}' || c == '\u{2028}' || c
        == '\u{2029}' || c == '\u{202f}' || c == '\u{205f}' || c == '\u{3000}'
    ||| '\t' <= c && c <= '\r'
    ||| '\u{2000}' <= c && c <= '\u{200a}'
}

/// Nothing but characters that show nothing.
pub open spec fn all_blank(s: Seq<char>) -> bool {
    forall|i: int| 0 <= i < s.len() ==> blank(#[trigger] s[i])
}

proof fn lemma_trimmed_start(s: Seq<char>) -> (n: int)
    ensures
        0 <= n <= s.len(),
        trimmed_start(s) == s.skip(n),
        all_blank(s.take(n)),
        n < s.len() ==> !blank(s[n]),
    decreases s.len(),
{
    if s.len() > 0 && is_white_space(s[0]) {
        let m = lemma_trimmed_start(s.skip(1));
        assert(s.skip(1).skip(m) =~= s.skip(m + 1));
        assert(m < s.skip(1).len() ==> s.skip(1)[m] == s[m + 1]);
        assert forall|i: int| 0 <= i < m + 1 implies blank(#[trigger] s.take(m + 1)[i]) by {
            if i > 0 {
                assert(s.skip(1).take(m)[i - 1] == s[i]);
            }
        }
        m + 1
    } else {
        assert(s.skip(0) =~= s);
        0
    }
}

proof fn lemma_trimmed_end(s: Seq<char>) -> (n: int)
    ensures
        0 <= n <= s.len(),
        trimmed_end(s) == s.take(n),
        all_blank(s.skip(n)),
        n > 0 ==> !blank(s[n - 1]),
    decreases s.len(),
{
    if s.len() > 0 && is_white_space(s.last()) {
        let m = lemma_trimmed_end(s.drop_last());
        assert(s.drop_last().take(m) =~= s.take(m));
        assert(m > 0 ==> s.drop_last()[m - 1] == s[m - 1]);
        assert forall|i: int| 0 <= i < s.skip(m).len() implies blank(#[trigger] s.skip(m)[i]) by {
            if i < s.skip(m).len() - 1 {
                assert(s.drop_last().skip(m)[i] == s[i + m]);
            }
        }
        m
    } else {
        assert(s.take(s.len() as int) =~= s);
        s.len() as int
    }
}

/// What is taken from the ends of a text shows nothing, and what is left neither begins nor ends
/// with such a character.
pub proof fn lemma_trim(text: &str, r: String)
    requires
        call_ensures(trim, (text,), r),
    ensures
        exists|a: Seq<char>, b: Seq<char>|
            #![trigger all_blank(a), all_blank(b)]
            all_blank(a) && all_blank(b) && text@ == a + r@ + b,
        r@.len() > 0 ==> !blank(r@[0]) && !blank(r@.last()),
{
    let n = lemma_trimmed_start(text@);
    let rest = text@.skip(n);
    let m = lemma_trimmed_end(rest);
    assert(trimmed(text@) == rest.take(m));
    let a = text@.take(n);
    let b = rest.skip(m);
    assert(text@ =~= a + r@ + b);
    assert(all_blank(a) && all_blank(b));
}

/// A job without a name has a fresh id. A name that is an id is kept. Any other name is trimmed
/// and stands before the fresh id.
pub proof fn lemma_id_of_name(
    name: Option<String>,
    shown: &str,
    fresh: &str,
    cut: String,
    r: String,
)
    requires
        name matches Some(n) ==> shown@ == n@,
        call_ensures(trim, (shown,), cut),
        call_ensures(job_id_with, (&name, fresh), r),
    ensures
        name is None ==> r@ == fresh@,
        name matches Some(n) ==> is_job_id(n@) ==> r@ == n@,
        name matches Some(n) ==> !is_job_id(n@) ==> r@ == cut@ + seq!['-'] + fresh@,
{
}

/// An id that was given is kept by every node that is handed it.
pub proof fn lemma_id_is_kept(
    name: Option<String>,
    fresh: &str,
    first: String,
    other: &str,
    second: String,
)
    requires
        is_uuid(fresh@),
        call_ensures(job_id_with, (&name, fresh), first),
        call_ensures(job_id_with, (&Some(first), other), second),
    ensures
        second@ == first@,
{
    lemma_job_id(name_text(name), fresh@);
}

/// The same of an id that is drawn: it ends with a unique id, and begins with the name.
pub proof fn lemma_id_drawn(
    name: Option<String>,
    shown: &str,
    cut: String,
    first: String,
    second: String,
)
    requires
        name matches Some(n) ==> shown@ == n@,
        call_ensures(trim, (shown,), cut),
        call_ensures(job_id, (&name,), first),
        call_ensures(job_id, (&Some(first),), second),
    ensures
        second@ == first@,
        name is None ==> is_uuid(first@),
        name matches Some(n) ==> is_job_id(n@) ==> first@ == n@,
        name matches Some(n) ==> !is_job_id(n@) ==> {
            &&& first@.len() == cut@.len() + 37
            &&& first@.take(cut@.len() as int) == cut@
            &&& first@[cut@.len() as int] == '-'
            &&& is_uuid(first@.skip(cut@.len() as int + 1))
        },
{
    let fresh = choose|fresh: Seq<char>| #[trigger]
        is_uuid(fresh) && first@ == crate::job_ids::job_id_text(name_text(name), fresh);
    lemma_job_id(name_text(name), fresh);
    if let Some(n) = name {
        if !is_job_id(n@) {
            assert(first@.take(cut@.len() as int) =~= cut@);
            assert(first@.skip(cut@.len() as int + 1) =~= fresh);
        }
    }
}

/// The id of a test among several is the common id, an underscore and the position. Another node
/// keeps it where the common id ends with a unique id.
pub proof fn lemma_sub_id(id: &str, index: usize, r: String, other: &str, again: String)
    requires
        call_ensures(sub_job_id, (id, index), r),
        call_ensures(job_id_with, (&Some(r), other), again),
    ensures
        r@.len() > id@.len() + 1,
        r@.take(id@.len() as int) == id@,
        r@[id@.len() as int] == '_',
        natural_value(r@.skip(id@.len() as int + 1)) == Some(index as nat),
        id@.len() >= 36 && is_uuid(id@.skip(id@.len() - 36)) ==> again@ == r@,
{
    crate::text::lemma_decimal_round_trip(index as nat);
    assert(r@.take(id@.len() as int) =~= id@);
    assert(r@.skip(id@.len() as int + 1) =~= decimal_text(index as nat));
    if id@.len() >= 36 && is_uuid(id@.skip(id@.len() - 36)) {
        let i = id@.len() - 36;
        assert(id@.subrange(i, i + 36) =~= id@.skip(i));
        lemma_sub_job_id(id@, i, index as nat);
    }
}

// ---------------------------------------------------------------------------------------------
// Checks
// ---------------------------------------------------------------------------------------------

/// A schema of an object without a name.
pub open spec fn nameless_object(schema: DataSchema) -> bool {
    schema matches DataSchema::Object(None, _)
}

/// A request file must be there. Random data need schemas of objects without names: that of the
/// body is looked at first. Nothing else can be wrong with the source of requests.
pub proof fn lemma_source_checked(req: RequestSpecEnum, file_exists: bool, r: Option<ErrorCode>)
    requires
        call_ensures(check_source, (&req, file_exists), r),
    ensures
        r == Some(ErrorCode::RequestFileNotFound) <==> req is RequestFile && !file_exists,
        req is RequestList || req is SplitRequestFile || req is JsonTemplateRequest ==> r is None,
        req matches RequestSpecEnum::RandomDataRequest(random) ==> {
            let body = random.body_schema matches Some(s) ==> nameless_object(s);
            let uri = random.uri_param_schema matches Some(s) ==> nameless_object(s);
            &&& r is None <==> body && uri
            &&& !body ==> r == Some(ErrorCode::BodyGenerationFailure)
            &&& body && !uri ==> r == Some(ErrorCode::UriParamGenerationFailure)
        },
        r matches Some(e) ==> e == ErrorCode::RequestFileNotFound || e
            == ErrorCode::BodyGenerationFailure || e == ErrorCode::UriParamGenerationFailure,
{
    broadcast use {
        crate::schema::lemma_object_schema_view,
        crate::schema::lemma_array_schema_view,
    };

}

proof fn lemma_lines(lines: Seq<String>)
    ensures
        lines_text(lines) == between(Seq::new(lines.len(), |i: int| lines[i]@), '\n'),
    decreases lines.len(),
{
    let views = Seq::new(lines.len(), |i: int| lines[i]@);
    if lines.len() > 1 {
        let front = lines.drop_last();
        lemma_lines(front);
        assert(views.drop_last() =~= Seq::new(front.len(), |i: int| front[i]@));
        assert(lines_text(lines) =~= between(views, '\n'));
    }
}

/// The lines of a Lua function, with line breaks between them and nowhere else.
pub proof fn lemma_lua_lines(checks: Option<ResponseAssertion>, r: Option<String>)
    requires
        call_ensures(lua_chunk, (&checks,), r),
    ensures
        r is Some <==> checks is Some && checks->0.lua_assertion is Some,
        r matches Some(chunk) ==> ({
            let lines = checks->0.lua_assertion->0@;
            chunk@ == between(Seq::new(lines.len(), |i: int| lines[i]@), '\n')
        }),
{
    if let Some(c) = checks {
        if let Some(lines) = c.lua_assertion {
            lemma_lines(lines@);
        }
    }
}

/// Lines are joined with line breaks between them.
pub proof fn lemma_lines_joined(lines: Vec<String>, r: String)
    requires
        call_ensures(join_lines, (&lines,), r),
    ensures
        r@ == between(Seq::new(lines@.len(), |i: int| lines@[i]@), '\n'),
{
    lemma_lines(lines@);
}

/// A fault of the source comes first, then that of the Lua function; without either all is fine.
pub proof fn lemma_concluded(
    fault: Option<ErrorCode>,
    lua: Option<Result<(), String>>,
    r: Result<(), ErrorCode>,
)
    requires
        call_ensures(conclude, (fault, lua), r),
    ensures
        r is Ok <==> fault is None && (lua is None || lua->0 is Ok),
        fault matches Some(e) ==> r == Err::<(), ErrorCode>(e),
        fault is None && r is Err ==> r == Err::<(), ErrorCode>(ErrorCode::LuaParseFailure),
{
}

/// A test is refused for the fault of its source. Without one it is refused at most for its Lua
/// function, and without that one too it is not refused.
pub proof fn lemma_checked(
    request: Request,
    file_exists: bool,
    fault: Option<ErrorCode>,
    chunk: Option<String>,
    r: Result<(), ErrorCode>,
)
    requires
        call_ensures(check_source, (&request.req, file_exists), fault),
        call_ensures(lua_chunk, (&request.response_assertion,), chunk),
        call_ensures(pre_check, (&request, file_exists), r),
    ensures
        fault matches Some(e) ==> r == Err::<(), ErrorCode>(e),
        fault is None && chunk is None ==> r is Ok,
        fault is None && r is Err ==> r == Err::<(), ErrorCode>(ErrorCode::LuaParseFailure),
{
}

// ---------------------------------------------------------------------------------------------
// Tests
// ---------------------------------------------------------------------------------------------

/// A test is the other one but for its name.
pub open spec fn renamed(before: Request, after: Request, id: Seq<char>) -> bool {
    &&& after.name matches Some(n) && n@ == id
    &&& before == (Request { name: before.name, ..after })
}

/// The name of a test at a position.
pub open spec fn numbered(text: Seq<char>, id: Seq<char>, i: int) -> bool {
    &&& text.len() > id.len() + 1
    &&& text.take(id.len() as int) == id
    &&& text[id.len() as int] == '_'
    &&& natural_value(text.skip(id.len() as int + 1)) == Some(i as nat)
}

proof fn lemma_numbered(id: Seq<char>, i: nat)
    ensures
        numbered(crate::job_ids::sub_id_text(id, i), id, i as int),
{
    let text = crate::job_ids::sub_id_text(id, i);
    crate::text::lemma_decimal_round_trip(i);
    assert(text.take(id.len() as int) =~= id);
    assert(text.skip(id.len() as int + 1) =~= decimal_text(i));
}

/// A node that works alone starts a test exactly where its checks succeeded, under its id, and
/// answers with the id and with the fault where there is one.
pub proof fn lemma_started(
    request: Request,
    id: String,
    checked: Result<(), ErrorCode>,
    r: TestStep,
)
    requires
        call_ensures(start, (request, id, checked), r),
    ensures
        r is Start <==> checked is Ok,
        !(r is Forward),
        r matches TestStep::Start(test, answer) ==> renamed(request, test, id@) && answer.job_id@
            == id@ && answer.status == JobStatus::Starting,
        r matches TestStep::Respond(answer) ==> answer.job_id@ == id@ && answer.status
            == JobStatus::Error(checked->Err_0),
{
}

/// The same of a test that is checked here: what is answered and what is started have the same
/// id, a name that is an id is kept, and the fault is that of the source or of the Lua function.
pub proof fn lemma_handled(
    request: Request,
    file_exists: bool,
    fault: Option<ErrorCode>,
    chunk: Option<String>,
    r: TestStep,
)
    requires
        call_ensures(handle_request, (request, file_exists), r),
        call_ensures(check_source, (&request.req, file_exists), fault),
        call_ensures(lua_chunk, (&request.response_assertion,), chunk),
    ensures
        !(r is Forward),
        fault is None && chunk is None ==> r is Start,
        r matches TestStep::Start(test, answer) ==> {
            &&& fault is None
            &&& is_job_id(answer.job_id@)
            &&& request.name matches Some(n) ==> is_job_id(n@) ==> answer.job_id@ == n@
            &&& renamed(request, test, answer.job_id@)
            &&& answer.status == JobStatus::Starting
        },
        r matches TestStep::Respond(answer) ==> {
            &&& is_job_id(answer.job_id@)
            &&& request.name matches Some(n) ==> is_job_id(n@) ==> answer.job_id@ == n@
            &&& answer.status == JobStatus::Error(
                if fault is Some {
                    fault->0
                } else {
                    ErrorCode::LuaParseFailure
                },
            )
        },
{
    let fresh = choose|fresh: Seq<char>| #[trigger]
        is_uuid(fresh) && ({
            let id = crate::job_ids::job_id_text(name_text(request.name), fresh);
            match r {
                TestStep::Start(test, answer) => {
                    &&& crate::routing::source_fault(request.req, file_exists) is None
                    &&& crate::routing::lua_outcome(request.response_assertion, true)
                    &&& crate::routing::under_id(request, test, id)
                    &&& crate::routing::answers(answer, id, JobStatus::Starting)
                },
                TestStep::Respond(answer) => match crate::routing::source_fault(
                    request.req,
                    file_exists,
                ) {
                    Some(fault) => crate::routing::answers(answer, id, JobStatus::Error(fault)),
                    None => crate::routing::lua_outcome(request.response_assertion, false)
                        && crate::routing::answers(
                        answer,
                        id,
                        JobStatus::Error(ErrorCode::LuaParseFailure),
                    ),
                },
                TestStep::Forward(_) => false,
            }
        });
    lemma_job_id(name_text(request.name), fresh);
}

/// In a cluster only the primary node starts tests, only where there are nodes to run them and
/// only where the checks succeeded; other nodes hand them on under their ids. Every answer names
/// the id and the first thing that is wrong.
pub proof fn lemma_routed(
    request: Request,
    id: String,
    cluster: ClusterView,
    checked: Result<(), ErrorCode>,
    r: TestStep,
)
    requires
        call_ensures(route, (request, id, cluster, checked), r),
    ensures
        r is Forward <==> cluster.active && !cluster.primary,
        r is Start <==> cluster.active && cluster.primary && checked is Ok
            && cluster.secondaries is Some && cluster.secondaries->0 > 0,
        r matches TestStep::Start(test, answer) ==> renamed(request, test, id@) && answer.job_id@
            == id@ && answer.status == JobStatus::Starting,
        r matches TestStep::Forward(test) ==> renamed(request, test, id@),
        r matches TestStep::Respond(answer) ==> answer.job_id@ == id@ && answer.status
            == JobStatus::Error(
            if !cluster.active {
                ErrorCode::InactiveCluster
            } else if cluster.secondaries is None || cluster.secondaries->0 == 0 {
                ErrorCode::NoSecondary
            } else {
                checked->Err_0
            },
        ),
{
}

/// The answer of the primary node is handed back as it is.
pub proof fn lemma_handed_back(id: String, answer: Option<Response>, r: Response, unknown: Response)
    requires
        call_ensures(forwarded, (id, answer), r),
        call_ensures(unknown_error_resp, (id,), unknown),
    ensures
        answer is Some ==> r == answer->0,
        answer is None ==> r.job_id@ == id@ && r.status == JobStatus::Error(ErrorCode::Others),
        unknown.job_id@ == id@ && unknown.status == JobStatus::Error(ErrorCode::Others),
{
}

/// Several tests are started from the first one on up to the first whose checks failed, each
/// under the common id and its position.
pub proof fn lemma_all_started(
    requests: Vec<Request>,
    id: String,
    checks: Vec<Result<(), ErrorCode>>,
    r: (Vec<Request>, Response),
)
    requires
        checks@.len() == requests@.len() || (0 < checks@.len() < requests@.len()
            && checks@.last() is Err),
        call_ensures(start_all, (requests, id, &checks), r),
    ensures
        r.1.job_id@ == id@,
        r.0@.len() <= requests@.len(),
        forall|i: int| 0 <= i < r.0@.len() ==> (#[trigger] checks@[i]) is Ok,
        forall|i: int|
            0 <= i < r.0@.len() ==> (#[trigger] r.0@[i]).name is Some && numbered(
                r.0@[i].name->0@,
                id@,
                i,
            ) && renamed(requests@[i], r.0@[i], r.0@[i].name->0@),
        r.0@.len() == requests@.len() <==> r.1.status == JobStatus::Starting,
        r.0@.len() < requests@.len() ==> checks@[r.0@.len() as int] is Err && r.1.status
            == JobStatus::Error(checks@[r.0@.len() as int]->Err_0),
{
    assert forall|i: int| 0 <= i < r.0@.len() implies (#[trigger] r.0@[i]).name is Some && numbered(
        r.0@[i].name->0@,
        id@,
        i,
    ) && renamed(requests@[i], r.0@[i], r.0@[i].name->0@) by {
        lemma_numbered(id@, i as nat);
    }
}

/// The same of tests that are checked here.
pub proof fn lemma_all_handled(
    requests: MultiRequest,
    files_exist: Vec<bool>,
    faults: Seq<Option<ErrorCode>>,
    r: (Vec<Request>, Response),
)
    requires
        files_exist@.len() == requests.requests@.len() == faults.len(),
        call_ensures(handle_multi_request, (requests, &files_exist), r),
        forall|i: int|
            0 <= i < faults.len() ==> call_ensures(
                check_source,
                (&requests.requests@[i].req, files_exist@[i]),
                #[trigger] faults[i],
            ),
    ensures
        is_job_id(r.1.job_id@),
        requests.name matches Some(n) ==> is_job_id(n@) ==> r.1.job_id@ == n@,
        r.0@.len() <= requests.requests@.len(),
        forall|i: int| 0 <= i < r.0@.len() ==> (#[trigger] faults[i]) is None,
        forall|i: int|
            0 <= i < r.0@.len() ==> (#[trigger] r.0@[i]).name is Some && numbered(
                r.0@[i].name->0@,
                r.1.job_id@,
                i,
            ) && renamed(requests.requests@[i], r.0@[i], r.0@[i].name->0@),
        r.0@.len() == requests.requests@.len() <==> r.1.status == JobStatus::Starting,
        r.0@.len() < requests.requests@.len() ==> r.1.status == JobStatus::Error(
            if faults[r.0@.len() as int] is Some {
                faults[r.0@.len() as int]->0
            } else {
                ErrorCode::LuaParseFailure
            },
        ),
{
    let all = requests.requests@;
    let n = r.0@.len() as int;
    let fresh = choose|fresh: Seq<char>| #[trigger]
        is_uuid(fresh) && ({
            let id = crate::job_ids::job_id_text(name_text(requests.name), fresh);
            &&& crate::routing::under_sub_ids(all, r.0@, id)
            &&& forall|i: int|
                0 <= i < n ==> crate::routing::source_fault(
                    (#[trigger] all[i]).req,
                    files_exist@[i],
                ) is None && crate::routing::lua_outcome(all[i].response_assertion, true)
            &&& if n == all.len() {
                crate::routing::answers(r.1, id, JobStatus::Starting)
            } else {
                match crate::routing::source_fault(all[n].req, files_exist@[n]) {
                    Some(fault) => crate::routing::answers(r.1, id, JobStatus::Error(fault)),
                    None => crate::routing::lua_outcome(all[n].response_assertion, false)
                        && crate::routing::answers(
                        r.1,
                        id,
                        JobStatus::Error(ErrorCode::LuaParseFailure),
                    ),
                }
            }
        });
    lemma_job_id(name_text(requests.name), fresh);
    assert forall|i: int| 0 <= i < n implies (#[trigger] faults[i]) is None by {
        assert(crate::routing::source_fault(all[i].req, files_exist@[i]) is None);
    }
    assert forall|i: int| 0 <= i < n implies (#[trigger] r.0@[i]).name is Some && numbered(
        r.0@[i].name->0@,
        r.1.job_id@,
        i,
    ) && renamed(all[i], r.0@[i], r.0@[i].name->0@) by {
        lemma_numbered(r.1.job_id@, i as nat);
    }
    if n < all.len() {
        assert(call_ensures(check_source, (&all[n].req, files_exist@[n]), faults[n]));
    }
}

/// In a cluster the primary node starts all of several tests; other nodes hand them on.
pub proof fn lemma_all_routed(
    requests: MultiRequest,
    id: String,
    active: bool,
    primary: bool,
    r: MultiStep,
)
    requires
        call_ensures(route_multi, (requests, id, active, primary), r),
    ensures
        r is Respond <==> !active,
        r is Start <==> active && primary,
        r matches MultiStep::Respond(answer) ==> answer.job_id@ == id@ && answer.status
            == JobStatus::Error(ErrorCode::InactiveCluster),
        r matches MultiStep::Start(tests, answer) ==> {
            &&& answer.job_id@ == id@
            &&& answer.status == JobStatus::Starting
            &&& tests@.len() == requests.requests@.len()
            &&& forall|i: int|
                0 <= i < tests@.len() ==> (#[trigger] tests@[i]).name is Some && numbered(
                    tests@[i].name->0@,
                    id@,
                    i,
                ) && renamed(requests.requests@[i], tests@[i], tests@[i].name->0@)
        },
        r matches MultiStep::Forward(tests) ==> tests.name is Some && tests.name->0@ == id@
            && tests.requests == requests.requests,
{
    if let MultiStep::Start(tests, answer) = r {
        assert forall|i: int| 0 <= i < tests@.len() implies (#[trigger] tests@[i]).name is Some
            && numbered(tests@[i].name->0@, id@, i) && renamed(
            requests.requests@[i],
            tests@[i],
            tests@[i].name->0@,
        ) by {
            lemma_numbered(id@, i as nat);
        }
    }
}

// ---------------------------------------------------------------------------------------------
// Other requests
// ---------------------------------------------------------------------------------------------

/// Anything else is done by the primary node, handed on by the others and refused where the
/// cluster is not active.
pub proof fn lemma_other_routed(active: bool, primary: bool, r: Route, e: GenericError)
    requires
        call_ensures(route_other, (active, primary), r),
        call_ensures(inactive_cluster_error, (), e),
    ensures
        r is Refuse <==> !active,
        r is Local <==> active && primary,
        r is Forward <==> active && !primary,
        r matches Route::Refuse(refused) ==> refused.error_code == 404 && refused.message@
            == e.message@,
        e.error_code == 404,
        e.message@ == "{\"Error\":\"InactiveCluster\"}"@,
{
}

/// A test goes to the first primary node, and nowhere else. What is asked of the primary node goes
/// to the same one.
pub proof fn lemma_handed_over(
    primaries: Option<Vec<Option<String>>>,
    path: &str,
    to: Handover,
    uri: Result<String, GenericError>,
)
    requires
        call_ensures(handover, (&primaries, path), to),
        call_ensures(primary_uri, (&primaries,), uri),
    ensures
        to is To <==> uri is Ok,
        uri is Ok <==> primaries is Some && primaries->0@.len() > 0 && primaries->0@[0] is Some,
        uri matches Ok(u) ==> u@ == primaries->0@[0]->0@,
        to matches Handover::To(t) ==> t@ == uri->Ok_0@ + seq!['/'] + path@,
        to is Nobody <==> primaries is Some && primaries->0@.len() == 0,
        to matches Handover::Nobody(answer) ==> answer.job_id@ == "error"@ && answer.status
            == JobStatus::Error(ErrorCode::Others),
        to matches Handover::Failed(m) ==> m@ == if primaries is None {
            "Primary returns None"@
        } else {
            "Invalid ServiceInstance URI"@
        },
        uri matches Err(e) ==> e.error_code == 500 && e.message@
            == "No primary or invalid ServiceInstance URI"@,
{
}

/// Where nodes ask the primary node.
pub proof fn lemma_uris(
    uri: &str,
    text: &str,
    params: JobStatusQueryParams,
    query: String,
    stop: String,
    status: String,
    file: String,
    upload: Option<String>,
)
    requires
        call_ensures(stop_uri, (uri, text), stop),
        call_ensures(JobStatusQueryParams::to_query, (&params,), query),
        call_ensures(status_uri, (uri, &params), status),
        call_ensures(data_file_uri, (uri, text), file),
        call_ensures(upload_uri, (uri,), upload),
    ensures
        stop@ == uri@ + "/test/stop/"@ + text@,
        status@ == uri@ + "/test/status?"@ + query@,
        file@ == uri@ + "/cluster/data-file/"@ + text@,
        upload is Some <==> joined_url(uri@, "/test/requests-bin"@) is Some,
        upload is Some ==> Some(upload->0@) == joined_url(uri@, "/test/requests-bin"@),
{
    reveal_strlit("/test/stop/");
    reveal_strlit("/test/stop");
    reveal_strlit("/test/status?");
    reveal_strlit("/test/status");
    reveal_strlit("/cluster/data-file/");
    reveal_strlit("/cluster/data-file");
    assert("/test/stop/"@ =~= "/test/stop"@ + seq!['/']);
    assert("/test/status?"@ =~= "/test/status"@ + seq!['?']);
    assert("/cluster/data-file/"@ =~= "/cluster/data-file"@ + seq!['/']);
    assert(stop@ =~= uri@ + "/test/stop/"@ + text@);
    assert(status@ =~= uri@ + "/test/status?"@ + query@);
    assert(file@ =~= uri@ + "/cluster/data-file/"@ + text@);
}

/// A request file is loaded from its place at the host and port, written in digits.
pub proof fn lemma_download(
    host: &str,
    port: u16,
    filename: &str,
    number: String,
    r: Option<String>,
)
    requires
        call_ensures(download_uri, (host, port, filename), r),
        call_ensures(crate::text::decimal, (port as u64,), number),
    ensures
        digits(number@) && worth(number@) == port,
        match joined_url("http://"@ + host@ + ":"@ + number@, "/cluster/data-file/"@) {
            Some(dir) => match joined_url(dir, filename@) {
                Some(url) => r matches Some(u) && u@ == url,
                None => r is None,
            },
            None => r is None,
        },
{
    reveal_strlit(":");
    assert(":"@ =~= seq![':']);
    crate::text_laws::lemma_natural_written(port as u64, number);
}

/// The file that a node needs is the one that its requests come from.
pub proof fn lemma_file_needed(req: RequestSpecEnum, r: Option<&str>)
    requires
        call_ensures(needed_file, (&req,), r),
    ensures
        r is Some <==> req is RequestFile || req is SplitRequestFile,
        req matches RequestSpecEnum::RequestFile(file) ==> r->0@ == file.file_name@,
        req matches RequestSpecEnum::SplitRequestFile(file) ==> r->0@ == file.file_name@,
{
}

/// A port has this name.
pub open spec fn port_called(p: NodePort, name: Seq<char>) -> bool {
    p.name matches Some(n) && n@ == name
}

/// The port is that of the first entry with the name, cut to 16 bits.
pub proof fn lemma_port_found(ports: Vec<NodePort>, name: &str, k: int, r: Option<u16>)
    requires
        call_ensures(find_port, (&ports, name), r),
        0 <= k < ports@.len(),
        port_called(ports@[k], name@),
        forall|j: int| 0 <= j < k ==> !port_called(#[trigger] ports@[j], name@),
    ensures
        r matches Some(port) && port as int == ports@[k].port as int % 0x1_0000,
{
    let n = ports@[k].port;
    assert(n as u16 as int == n as int % 0x1_0000) by {
        assert(n as u16 == (n % 0x1_0000) as u16) by (bit_vector);
    }
    assert(crate::routing::is_named(ports@[k], name@));
    if let Some(port) = r {
        let i = choose|i: int|
            {
                &&& 0 <= i < ports@.len()
                &&& crate::routing::is_named(#[trigger] ports@[i], name@)
                &&& port == ports@[i].port as u16
                &&& forall|j: int|
                    0 <= j < i ==> !crate::routing::is_named(#[trigger] ports@[j], name@)
            };
        assert(port_called(ports@[i], name@));
    }
}

/// Without such an entry no port is found.
pub proof fn lemma_no_port(ports: Vec<NodePort>, name: &str, r: Option<u16>)
    requires
        call_ensures(find_port, (&ports, name), r),
        forall|j: int| 0 <= j < ports@.len() ==> !port_called(#[trigger] ports@[j], name@),
    ensures
        r is None,
{
}

} // verus!
