//! Laws of a request and its response: what is waited for, checked and measured.

use vstd::prelude::*;

use crate::exchange::{
    begin_updates, body_updates, check_body, failure_labels,
    head_updates, lua_measures, lua_updates, try_check_response, Await, BodyVerdict, Exchange, Head,
    Look,
};
use crate::json::Json;
use crate::lua::{
    body_view, call_lua_func_from_registry, chunk_of, function_faults, init_lua, judge, kept_in,
    library_of, load_lua_func, load_lua_func_with_registry, lua_refusals, lua_replies, row_view,
    verify_lua_chunk, LuaAssertionResult, LuaReply, LuaRow, ReplyView,
};
use crate::metrics::{Change, Metric, Update};
use crate::response_assert::{assert_response, AssertionError, ResponseAssertion, UriParts};
use crate::serde_bridge::json_of;
use crate::text::natural_value;

verus! {

// ---------------------------------------------------------------------------------------------
// Steps
// ---------------------------------------------------------------------------------------------

/// A request begins the first time that it is looked at, and never again; it waits for the head
/// of its response until that came.
pub proof fn lemma_begins_once(
    made: Exchange,
    calls: Seq<&mut Exchange>,
    looks: Seq<Look>,
    k: nat,
)
    requires
        call_ensures(Exchange::new, (), made),
        calls.len() == looks.len(),
        k < calls.len(),
        *calls[0] == made,
        forall|i: int, j: int|
            #![trigger calls[i], calls[j]]
            0 <= i && j == i + 1 && j < calls.len() ==> *calls[j] == *final(calls[i]),
        forall|i: int|
            #![trigger calls[i]]
            0 <= i < calls.len() ==> call_ensures(Exchange::look, (calls[i],), looks[i]),
    ensures
        calls[k as int].wf(),
        looks[k as int].begins <==> k == 0,
        looks[k as int].wait == Await::Response,
        final(calls[k as int]).wf(),
        k > 0 ==> *final(calls[k as int]) == *final(calls[0]),
    decreases k,
{
    assert(call_ensures(Exchange::look, (calls[k as int],), looks[k as int]));
    if k > 0 {
        lemma_begins_once(made, calls, looks, (k - 1) as nat);
        assert(*calls[k as int] == *final(calls[k - 1]));
    }
}

/// Once the head came, the body is waited for, and once the request failed, nothing is. The
/// request does not begin again.
pub proof fn lemma_answered(
    made: Exchange,
    first: &mut Exchange,
    begun: Look,
    second: &mut Exchange,
    received: bool,
    read_body: bool,
    third: &mut Exchange,
    look: Look,
)
    requires
        call_ensures(Exchange::new, (), made),
        *old(first) == made,
        call_ensures(Exchange::look, (first,), begun),
        *old(second) == *final(first),
        call_ensures(Exchange::on_response, (second, received), read_body),
        *old(third) == *final(second),
        call_ensures(Exchange::look, (third,), look),
    ensures
        begun.begins && begun.wait == Await::Response,
        read_body == received,
        !look.begins,
        look.wait == if received {
            Await::Body
        } else {
            Await::Nothing
        },
        *final(third) == *old(third),
{
}

// ---------------------------------------------------------------------------------------------
// Measures
// ---------------------------------------------------------------------------------------------

/// One more of a metric.
pub open spec fn one_more(u: Update, metric: Metric) -> bool {
    u.metric == metric && u.change == Change::IncrementBy(1)
}

proof fn lemma_labels(u: Update)
    ensures
        u@.labels.len() == u.labels@.len(),
        forall|i: int| 0 <= i < u.labels@.len() ==> u@.labels[i] == (#[trigger] u.labels@[i])@,
{
}

/// A request is counted where it begins, once.
pub proof fn lemma_begin_measured(look: Look, r: Vec<Update>)
    requires
        call_ensures(begin_updates, (look,), r),
    ensures
        r@.len() == if look.begins {
            1nat
        } else {
            0nat
        },
        look.begins ==> one_more(r@[0], Metric::UpstreamRequestCount) && r@[0].labels@.len() == 0,
{
    let u = crate::metrics::measures(r@);
    assert(u.len() == r@.len());
    if look.begins {
        assert(u[0] == r@[0]@);
        lemma_labels(r@[0]);
        assert(u[0].labels.len() == 0);
    }
}

/// A response is counted once under its status, and its time is observed under the same; a
/// request that failed is counted once under the reason, and no time is observed.
pub proof fn lemma_head_measured(head: Head, r: Vec<Update>)
    requires
        call_ensures(head_updates, (&head,), r),
    ensures
        match head {
            Head::Received { status, elapsed } => {
                &&& r@.len() == 2
                &&& r@[0].metric == Metric::UpstreamResponseTime
                &&& r@[0].change == Change::Observe(elapsed)
                &&& r@[0].labels@.len() == 1 && r@[0].labels@[0]@ == status@
                &&& one_more(r@[1], Metric::UpstreamRequestStatusCount)
                &&& r@[1].labels@.len() == 1 && r@[1].labels@[0]@ == status@
            },
            Head::Failed(reason) => {
                &&& r@.len() == 1
                &&& one_more(r@[0], Metric::UpstreamRequestStatusCount)
                &&& r@[0].labels@.len() == 1 && r@[0].labels@[0]@ == reason@
            },
        },
{
    let u = crate::metrics::measures(r@);
    assert(u.len() == r@.len());
    assert(u[0] == r@[0]@);
    lemma_labels(r@[0]);
    assert(u[0].labels[0] == r@[0].labels@[0]@);
    if head is Received {
        assert(u[1] == r@[1]@);
        lemma_labels(r@[1]);
        assert(u[1].labels[0] == r@[1].labels@[0]@);
    }
}

/// Every check that failed is counted once, under its id in digits and its label; a body that
/// could not be read is counted once under the reason; and nothing else is counted.
pub proof fn lemma_body_measured(outcome: BodyVerdict, r: Vec<Update>)
    requires
        call_ensures(body_updates, (&outcome,), r),
    ensures
        match outcome {
            BodyVerdict::Failed(list) => {
                &&& r@.len() == list@.len()
                &&& forall|i: int|
                    0 <= i < list@.len() ==> one_more(#[trigger] r@[i], Metric::AssertionFailure)
                        && r@[i].labels@.len() == 2 && natural_value(r@[i].labels@[0]@) == Some(
                        list@[i].0 as nat,
                    ) && r@[i].labels@[1]@ == list@[i].1@
            },
            BodyVerdict::Unreadable(reason) => {
                &&& r@.len() == 1
                &&& one_more(r@[0], Metric::AssertionFailure)
                &&& r@[0].labels@.len() == 2
                &&& r@[0].labels@[0]@ == "parse_err"@
                &&& r@[0].labels@[1]@ == reason@
            },
            BodyVerdict::Passed => r@.len() == 0,
            BodyVerdict::NotChecked => r@.len() == 0,
        },
{
    let u = crate::metrics::measures(r@);
    assert(u.len() == r@.len());
    match outcome {
        BodyVerdict::Failed(list) => {
            assert forall|i: int| 0 <= i < list@.len() implies one_more(
                #[trigger] r@[i],
                Metric::AssertionFailure,
            ) && r@[i].labels@.len() == 2 && natural_value(r@[i].labels@[0]@) == Some(
                list@[i].0 as nat,
            ) && r@[i].labels@[1]@ == list@[i].1@ by {
                assert(u[i] == r@[i]@);
                lemma_labels(r@[i]);
                assert(u[i].labels[0] == r@[i].labels@[0]@);
                assert(u[i].labels[1] == r@[i].labels@[1]@);
                crate::text::lemma_decimal_round_trip(list@[i].0 as nat);
            }
        },
        BodyVerdict::Unreadable(reason) => {
            assert(u[0] == r@[0]@);
            lemma_labels(r@[0]);
            assert(u[0].labels[0] == r@[0].labels@[0]@);
            assert(u[0].labels[1] == r@[0].labels@[1]@);
        },
        _ => {},
    }
}

/// A check of a Lua function that failed.
pub open spec fn lua_failed(list: Seq<LuaAssertionResult>) -> Seq<LuaAssertionResult> {
    list.filter(|o: LuaAssertionResult| o.assertion_result is Err)
}

proof fn lemma_lua_failures(list: Seq<LuaAssertionResult>)
    ensures
        lua_measures(list).len() == lua_failed(list).len(),
        forall|k: int|
            0 <= k < lua_failed(list).len() ==> ({
                let u = #[trigger] lua_measures(list)[k];
                let o = lua_failed(list)[k];
                &&& u.metric == Metric::AssertionFailure
                &&& u.change == Change::IncrementBy(1)
                &&& u.labels.len() == 2
                &&& u.labels[0] == crate::text::decimal_text(o.assertion_id as u32 as nat)
                &&& o.assertion_result is Err
                &&& u.labels[1] == o.assertion_result->Err_0@
            }),
    decreases list.len(),
{
    reveal(Seq::filter);
    if list.len() > 0 {
        lemma_lua_failures(list.drop_last());
    }
}

/// Every check of a Lua function that failed is counted once, in order, under its id and its
/// reason. A negative id is read as the number of 32 bits that it is stored as.
pub proof fn lemma_lua_measured(list: Vec<LuaAssertionResult>, r: Vec<Update>)
    requires
        call_ensures(lua_updates, (&list,), r),
    ensures
        ({
            let failed = list@.filter(|o: LuaAssertionResult| o.assertion_result is Err);
            &&& r@.len() == failed.len()
            &&& forall|k: int|
                0 <= k < failed.len() ==> one_more(#[trigger] r@[k], Metric::AssertionFailure)
                    && r@[k].labels@.len() == 2 && natural_value(r@[k].labels@[0]@) == Some(
                    (failed[k].assertion_id as int % 0x1_0000_0000) as nat,
                ) && r@[k].labels@[1]@ == failed[k].assertion_result->Err_0@
        }),
{
    lemma_lua_failures(list@);
    let u = crate::metrics::measures(r@);
    assert(u.len() == r@.len());
    let failed = lua_failed(list@);
    assert forall|k: int| 0 <= k < failed.len() implies one_more(
        #[trigger] r@[k],
        Metric::AssertionFailure,
    ) && r@[k].labels@.len() == 2 && natural_value(r@[k].labels@[0]@) == Some(
        (failed[k].assertion_id as int % 0x1_0000_0000) as nat,
    ) && r@[k].labels@[1]@ == failed[k].assertion_result->Err_0@ by {
        assert(u[k] == r@[k]@);
        lemma_labels(r@[k]);
        assert(u[k].labels[0] == r@[k].labels@[0]@);
        assert(u[k].labels[1] == r@[k].labels@[1]@);
        let id = failed[k].assertion_id;
        assert(id as u32 as i64 == if id >= 0 {
            id as i64
        } else {
            (id as i64 + 0x1_0000_0000i64) as i64
        }) by (bit_vector);
        assert(id as u32 as int == id as int % 0x1_0000_0000);
        crate::text::lemma_decimal_round_trip(id as u32 as nat);
    }
}

// ---------------------------------------------------------------------------------------------
// Checks
// ---------------------------------------------------------------------------------------------

/// Failures are listed in order, each with its id and the name of what it is.
pub proof fn lemma_failures_labelled(errors: Vec<AssertionError>, i: int, r: Vec<(u32, String)>)
    requires
        call_ensures(failure_labels, (&errors,), r),
        0 <= i < errors@.len(),
    ensures
        r@.len() == errors@.len(),
        match errors@[i] {
            AssertionError::InvalidExpectation(id, _) => r@[i].0 == id && r@[i].1@
                == "InvalidExpectation"@,
            AssertionError::FailedAssert(id, _) => r@[i].0 == id && r@[i].1@ == "FailedAssert"@,
            AssertionError::InvalidActual(id, _) => r@[i].0 == id && r@[i].1@ == "InvalidActual"@,
        },
{
    assert(r@[i].0 == r@[i].0);
}

/// A body is checked exactly where it is there and there are checks. One that cannot be read is
/// said to be so; otherwise the failures are those of the checks, and none is passed.
pub proof fn lemma_body_checked(
    assertions: ResponseAssertion,
    url: UriParts,
    body: Option<Result<Json, String>>,
    r: BodyVerdict,
    value: Json,
    checked: Result<(), Vec<AssertionError>>,
    labels: Vec<(u32, String)>,
)
    requires
        crate::exchange::body_checkable(
            assertions,
            url@,
            crate::exchange::parsed_view(body),
        ),
        call_ensures(check_body, (&assertions, &url, body), r),
        body matches Some(Ok(v)) ==> v == value,
        call_ensures(assert_response, (&assertions, &url, None::<&Json>, &value), checked),
        checked matches Err(errors) ==> call_ensures(failure_labels, (&errors,), labels),
    ensures
        r is NotChecked <==> body is None || assertions.assertions@.len() == 0,
        assertions.assertions@.len() > 0 ==> match body {
            Some(Err(text)) => r is Unreadable && r->Unreadable_0@ == text@,
            Some(Ok(_)) => match checked {
                Ok(_) => r is Passed,
                Err(errors) => {
                    &&& r is Failed
                    &&& r->Failed_0@.len() == errors@.len()
                    &&& forall|i: int|
                        0 <= i < errors@.len() ==> (#[trigger] r->Failed_0@[i]).0 == labels@[i].0
                            && r->Failed_0@[i].1@ == labels@[i].1@
                },
            },
            None => true,
        },
{
    if let Some(Ok(v)) = body {
        if let Err(errors) = checked {
            let faults = crate::response_assert::errors_view(errors@);
            assert(faults.len() == errors@.len());
            if assertions.assertions@.len() > 0 {
                assert forall|i: int| 0 <= i < errors@.len() implies (
                #[trigger] r->Failed_0@[i]).0 == labels@[i].0 && r->Failed_0@[i].1@
                    == labels@[i].1@ by {
                    assert(faults[i] == errors@[i]@);
                    assert(labels@[i].0 == crate::response_assert::error_id(errors@[i]@));
                }
            }
        }
    }
}

/// The bytes of a body are checked as the value that they denote, wherever the checks can be made.
pub proof fn lemma_bytes_checked(
    assertions: ResponseAssertion,
    url: UriParts,
    body: Option<&[u8]>,
    parsed: Option<Result<Json, String>>,
    whole: BodyVerdict,
    r: Option<BodyVerdict>,
)
    requires
        match (body, parsed) {
            (None, None) => true,
            (Some(bytes), Some(Ok(v))) => json_of(bytes@) == Ok::<_, Seq<char>>(v@),
            (Some(bytes), Some(Err(e))) => json_of(bytes@) == Err::<crate::json::JsonView, _>(e@),
            _ => false,
        },
        crate::exchange::body_checkable(
            assertions,
            url@,
            crate::exchange::parsed_view(parsed),
        ),
        call_ensures(check_body, (&assertions, &url, parsed), whole),
        call_ensures(try_check_response, (&assertions, &url, body), r),
    ensures
        r is Some,
        whole is NotChecked <==> r->0 is NotChecked,
        whole is Passed <==> r->0 is Passed,
        whole is Unreadable <==> r->0 is Unreadable,
        whole is Failed ==> r->0->Failed_0@.len() == whole->Failed_0@.len() && forall|i: int|
            0 <= i < whole->Failed_0@.len() ==> (#[trigger] r->0->Failed_0@[i]).0
                == whole->Failed_0@[i].0 && r->0->Failed_0@[i].1@ == whole->Failed_0@[i].1@,
{
    assert(crate::exchange::bytes_view(body) == crate::exchange::parsed_view(parsed));
    if whole is Failed {
        assert forall|i: int| 0 <= i < whole->Failed_0@.len() implies (
        #[trigger] r->0->Failed_0@[i]).0 == whole->Failed_0@[i].0 && r->0->Failed_0@[i].1@
            == whole->Failed_0@[i].1@ by {
            assert(whole->Failed_0@[i].0 == whole->Failed_0@[i].0);
        }
    }
}

// ---------------------------------------------------------------------------------------------
// Lua
// ---------------------------------------------------------------------------------------------

/// A row is an outcome where its id and its success can be read, and where it is no success its
/// error too.
pub proof fn lemma_lua_row(row: Option<LuaRow>, r: Option<LuaAssertionResult>)
    requires
        call_ensures(LuaAssertionResult::from_row, (row,), r),
    ensures
        r is Some <==> (row is Some && row->0.id is Ok && row->0.success is Ok && (
        row->0.success->Ok_0 || row->0.error is Ok)),
        r matches Some(o) ==> o.assertion_id == row->0.id->Ok_0 && o.assertion_result == if
            row->0.success->Ok_0 {
            Ok::<(), String>(())
        } else {
            Err(row->0.error->Ok_0)
        },
{
}

/// Checks passed exactly where the function replied with an empty list. One outcome is listed for
/// each row where all of them can be read, and none otherwise; that there is no function is the
/// one outcome of a reply that says so.
pub proof fn lemma_lua_judged(
    reply: LuaReply,
    read: Seq<Option<LuaAssertionResult>>,
    r: Result<(), Vec<LuaAssertionResult>>,
)
    requires
        call_ensures(judge, (reply,), r),
        reply matches LuaReply::Rows(rows) ==> {
            &&& read.len() == rows@.len()
            &&& forall|i: int|
                0 <= i < rows@.len() ==> call_ensures(
                    LuaAssertionResult::from_row,
                    (rows@[i],),
                    #[trigger] read[i],
                )
        },
    ensures
        r is Ok <==> reply is Rows && reply->Rows_0@.len() == 0,
        reply is Failed ==> r->Err_0@.len() == 0,
        reply matches LuaReply::NoFunction(e) ==> r->Err_0@.len() == 1
            && r->Err_0@[0].assertion_result == Err::<(), String>(e) && r->Err_0@[0].assertion_id
            == i32::MAX,
        reply matches LuaReply::Rows(rows) ==> rows@.len() > 0 ==> {
            &&& (forall|i: int| 0 <= i < read.len() ==> (#[trigger] read[i]) is Some)
                ==> r->Err_0@.len() == rows@.len()
            &&& r->Err_0@.len() == 0 || r->Err_0@.len() == rows@.len()
            &&& forall|i: int|
                0 <= i < r->Err_0@.len() ==> read[i] is Some && (#[trigger] r->Err_0@[i])
                    .assertion_id == read[i]->0.assertion_id && r->Err_0@[i].assertion_result
                    == read[i]->0.assertion_result
        },
{
    if let LuaReply::Rows(rows) = reply {
        assert forall|i: int| 0 <= i < rows@.len() implies (
        LuaAssertionResult::row_outcome(#[trigger] rows@[i]) is Some <==> read[i] is Some) by {
            assert(call_ensures(LuaAssertionResult::from_row, (rows@[i],), read[i]));
        }
        if forall|i: int| 0 <= i < read.len() ==> (#[trigger] read[i]) is Some {
            assert(crate::lua::all_read(rows@)) by {
                assert forall|i: int| 0 <= i < rows@.len() implies LuaAssertionResult::row_outcome(
                    #[trigger] rows@[i],
                ) is Some by {
                    assert(read[i] is Some);
                }
            }
        }
        if r is Err && r->Err_0@.len() > 0 {
            assert forall|i: int| 0 <= i < r->Err_0@.len() implies read[i] is Some && (
            #[trigger] r->Err_0@[i]).assertion_id == read[i]->0.assertion_id
                && r->Err_0@[i].assertion_result == read[i]->0.assertion_result by {
                assert(call_ensures(LuaAssertionResult::from_row, (rows@[i],), read[i]));
            }
        }
    }
}

/// A response passes only where the function can reply with an empty list. Every outcome that is
/// listed is that of a row that it can reply with.
pub proof fn lemma_lua_called(
    lua: mlua::Lua,
    key: mlua::RegistryKey,
    method: &str,
    url: String,
    req_body: Option<String>,
    resp_body: String,
    r: Result<(), Vec<LuaAssertionResult>>,
)
    requires
        kept_in(key, lua),
        call_ensures(
            call_lua_func_from_registry,
            (&lua, &key, method, url, req_body, resp_body),
            r,
        ),
    ensures
        ({
            let replies = lua_replies(
                library_of(lua),
                chunk_of(key),
                method@,
                url@,
                body_view(req_body),
                resp_body@,
            );
            &&& r is Ok ==> replies.contains(ReplyView::Rows(Seq::empty()))
            &&& r matches Err(list) ==> list@.len() > 0 ==> exists|reply: ReplyView| #[trigger]
                replies.contains(reply) && reply is Rows && reply->Rows_0.len() == list@.len()
                    && forall|i: int|
                    0 <= i < list@.len() ==> (#[trigger] reply->Rows_0[i]) is Some
                        && reply->Rows_0[i]->0.id == Ok::<i32, Seq<char>>(list@[i].assertion_id)
                        && reply->Rows_0[i]->0.success == Ok::<bool, Seq<char>>(
                        list@[i].assertion_result is Ok,
                    )
        }),
{
    let replies = lua_replies(
        library_of(lua),
        chunk_of(key),
        method@,
        url@,
        body_view(req_body),
        resp_body@,
    );
    let reply = choose|reply: LuaReply| #[trigger]
        crate::lua::judged(reply, r) && (kept_in(key, lua) ==> !(reply is NoFunction))
            && replies.contains(reply@);
    if r is Ok {
        assert(reply@->Rows_0 =~= Seq::empty());
    }
    if let Err(list) = r {
        if list@.len() > 0 {
            let rows = reply->Rows_0@;
            let view = reply@->Rows_0;
            assert(replies.contains(reply@));
            assert forall|i: int| 0 <= i < list@.len() implies (#[trigger] view[i]) is Some
                && view[i]->0.id == Ok::<i32, Seq<char>>(list@[i].assertion_id)
                && view[i]->0.success == Ok::<bool, Seq<char>>(
                list@[i].assertion_result is Ok,
            ) by {
                assert(view[i] == row_view(rows[i]));
                assert(LuaAssertionResult::row_outcome(rows[i]) == Some(
                    (list@[i].assertion_id, list@[i].assertion_result),
                ));
            }
        }
    }
}

/// Lua compiles a chunk neither as an expression nor as statements.
pub open spec fn unreadable(chunk: Seq<char>) -> bool {
    &&& exists|m: Seq<char>| #[trigger] lua_refusals("return "@ + chunk).contains(m)
    &&& exists|m: Seq<char>| #[trigger] lua_refusals(chunk).contains(m)
}

proof fn lemma_unreadable(chunk: Seq<char>)
    ensures
        unreadable(chunk) <==> !crate::lua::lua_parses(chunk),
{
    let a = lua_refusals("return "@ + chunk);
    let b = lua_refusals(chunk);
    assert(a == Set::<Seq<char>>::empty() <==> !exists|m: Seq<char>| #[trigger] a.contains(m)) by {
        if !exists|m: Seq<char>| #[trigger] a.contains(m) {
            assert(a =~= Set::<Seq<char>>::empty());
        }
    }
    assert(b == Set::<Seq<char>>::empty() <==> !exists|m: Seq<char>| #[trigger] b.contains(m)) by {
        if !exists|m: Seq<char>| #[trigger] b.contains(m) {
            assert(b =~= Set::<Seq<char>>::empty());
        }
    }
}

/// A chunk that Lua can compile neither way is refused everywhere, with a message of the compiler.
/// A function that is kept is that of the chunk, where asking for it can succeed.
pub proof fn lemma_lua_loaded<'lua>(
    chunk: &str,
    lua: &'lua mlua::Lua,
    state: Result<mlua::Lua, String>,
    key: Option<mlua::RegistryKey>,
    function: Option<mlua::Function<'lua>>,
    verified: Result<(), String>,
)
    requires
        call_ensures(init_lua, (chunk,), state),
        call_ensures(load_lua_func_with_registry, (chunk, lua), key),
        call_ensures(load_lua_func, (chunk, lua), function),
        call_ensures(verify_lua_chunk, (chunk,), verified),
    ensures
        unreadable(chunk@) ==> state is Err && key is None && function is None && verified is Err,
        unreadable(chunk@) ==> lua_refusals(chunk@).contains(state->Err_0@),
        unreadable(chunk@) ==> lua_refusals(chunk@).contains(verified->Err_0@),
        key is Some || function is Some || verified is Ok ==> function_faults(chunk@).contains(
            None,
        ),
        key matches Some(k) ==> chunk_of(k) == chunk@ && kept_in(k, *lua),
        state matches Ok(l) ==> library_of(l) == ("json"@, chunk@),
        !unreadable(chunk@) && verified is Err ==> function_faults(chunk@).contains(
            Some(verified->Err_0@),
        ),
{
    lemma_unreadable(chunk@);
}

/// Where no check could be made, the reason is the one outcome.
pub proof fn lemma_lua_error(error: String, r: LuaAssertionResult)
    requires
        call_ensures(LuaAssertionResult::lua_error, (error,), r),
    ensures
        r.assertion_id == 0x7fff_ffff,
        r.assertion_result == Err::<(), String>(error),
{
}

} // verus!
