//! Laws of single checks of responses: when they can be made, and what is said where they fail.

use vstd::prelude::*;

use crate::json::{items_view, Json, JsonView};
use crate::path_safety::selects_safely;
use crate::response_assert::{
    assert_response, can_assert_response, describe_actual, describe_assertion, describe_expectation,
    describe_items, json_option_view, try_assert_response, Actual, Assertion, AssertionError, Expectation, ResponseAssertion, UriParts,
};
use crate::serde_bridge::{json_debug_of, quoted_text};
use crate::text::natural_value;

verus! {

/// Values as they are shown, with commas between them.
pub open spec fn shown(values: Seq<JsonView>) -> Seq<char>
    decreases values.len(),
{
    if values.len() == 0 {
        Seq::empty()
    } else if values.len() == 1 {
        json_debug_of(values[0])
    } else {
        json_debug_of(values[0]) + ", "@ + shown(values.skip(1))
    }
}

proof fn lemma_shown(values: Seq<JsonView>)
    ensures
        describe_items(values) == shown(values),
    decreases values.len(),
{
    if values.len() > 1 {
        let front = values.drop_last();
        let rest = values.skip(1);
        lemma_shown(front);
        lemma_shown(rest);
        if values.len() == 2 {
            assert(front[0] == values[0] && rest[0] == values[1]);
            assert(values.last() == values[1]);
        } else {
            assert(front.skip(1) =~= rest.drop_last());
            lemma_shown(front.skip(1));
            assert(front[0] == values[0]);
            assert(rest.last() == values.last());
            let a = json_debug_of(values[0]);
            let b = shown(front.skip(1));
            let c = json_debug_of(values.last());
            assert(describe_items(values) == shown(front) + ", "@ + c);
            assert(shown(front) == a + ", "@ + b);
            assert(shown(rest) == describe_items(rest.drop_last()) + ", "@ + c);
            assert(a + ", "@ + b + ", "@ + c =~= a + ", "@ + (b + ", "@ + c));
        }
    }
}

/// Where a constant is compared with what a path finds: it passes exactly where that is one equal
/// value; what is said otherwise names the expected value first, then what was found.
pub proof fn lemma_constant_fault(
    a: Assertion,
    uri: UriParts,
    expected: Json,
    found: Vec<Json>,
    same: bool,
    r: Option<AssertionError>,
    head: Seq<char>,
)
    requires
        a.expectation == Expectation::Constant(expected),
        a.actual is FromJsonResponse,
        call_ensures(
            Assertion::check,
            (&a, &uri, None::<Result<Vec<Json>, String>>, Ok::<Vec<Json>, String>(found)),
            r,
        ),
        found@.len() == 1 ==> call_ensures(Json::same, (&found@[0], &expected), same),
        head == crate::response_assert::describe_assertion(a@),
    ensures
        r is None <==> found@.len() == 1 && same,
        r matches Some(e) ==> e is FailedAssert && e->FailedAssert_0 == a.id && e->FailedAssert_1@
            == head + " - expected: ["@ + json_debug_of(expected@) + "], actual: ["@ + shown(
            items_view(found@),
        ) + "]"@,
{
    let values = items_view(found@);
    lemma_shown(values);
    lemma_shown(seq![expected@]);
    assert(values.len() == found@.len());
    if found@.len() == 1 {
        assert(values[0] == found@[0]@);
    }
    reveal_strlit(" - expected: [");
    reveal_strlit(" - expected: ");
    reveal_strlit("], actual: [");
    reveal_strlit(", actual: ");
    reveal_strlit("[");
    reveal_strlit("]");
    assert(" - expected: ["@ =~= " - expected: "@ + "["@);
    assert("], actual: ["@ =~= "]"@ + ", actual: "@ + "["@);
    if let Some(e) = r {
        let v = seq![expected@];
        assert(v[0] == expected@);
        let x = json_debug_of(expected@);
        let y = shown(values);
        assert(head + " - expected: "@ + ("["@ + x + "]"@) + ", actual: "@ + ("["@ + y + "]"@)
            =~= head + (" - expected: "@ + "["@) + x + ("]"@ + ", actual: "@ + "["@) + y + "]"@);
    }
}

/// A check is described by its id, in digits, by what it expects and by what it looks at.
pub proof fn lemma_description(a: Assertion, number: Seq<char>, expected: Seq<char>, actual: Seq<char>)
    requires
        number == crate::text::decimal_text(a.id as nat),
        match a.expectation {
            Expectation::RequestPath(n) => expected == "RequestPath("@ + crate::text::decimal_text(
                n@ as nat,
            ) + ")"@,
            Expectation::RequestQueryParam(name) => expected == "RequestQueryParam("@ + quoted_text(
                name@,
            ) + ")"@,
            Expectation::RequestBody(path) => expected == "RequestBody(JsonPath { path: "@
                + quoted_text(path@) + " })"@,
            Expectation::Constant(v) => expected == "Constant("@ + json_debug_of(v@) + ")"@,
        },
        match a.actual {
            Actual::FromJsonResponse(path) => actual == "FromJsonResponse(JsonPath { path: "@
                + quoted_text(path@) + " })"@,
            Actual::Constant(v) => actual == "Constant("@ + json_debug_of(v@) + ")"@,
        },
    ensures
        natural_value(number) == Some(a.id as nat),
        describe_expectation(a@.expectation) == expected,
        describe_actual(a@.actual) == actual,
        describe_assertion(a@) == "Assertion { id: "@ + number + ", expectation: "@ + expected
            + ", actual: "@ + actual + " }"@,
{
    crate::text::lemma_decimal_round_trip(a.id as nat);
    reveal_strlit("RequestBody(JsonPath { path: ");
    reveal_strlit("RequestBody(");
    reveal_strlit("FromJsonResponse(JsonPath { path: ");
    reveal_strlit("FromJsonResponse(");
    reveal_strlit("JsonPath { path: ");
    reveal_strlit(" })");
    reveal_strlit(" }");
    reveal_strlit(")");
    assert("RequestBody(JsonPath { path: "@ =~= "RequestBody("@ + "JsonPath { path: "@);
    assert("FromJsonResponse(JsonPath { path: "@ =~= "FromJsonResponse("@ + "JsonPath { path: "@);
    assert(" })"@ =~= " }"@ + ")"@);
    if let Expectation::RequestBody(path) = a.expectation {
        let q = quoted_text(path@);
        assert(expected =~= "RequestBody("@ + ("JsonPath { path: "@ + q + " }"@) + ")"@);
    }
    if let Actual::FromJsonResponse(path) = a.actual {
        let q = quoted_text(path@);
        assert(actual =~= "FromJsonResponse("@ + ("JsonPath { path: "@ + q + " }"@) + ")"@);
    }
}

/// What is said where a check expects nothing that can be found, or finds nothing to look at.
pub proof fn lemma_fault_told(
    a: Assertion,
    uri: UriParts,
    body: Option<Result<Vec<Json>, String>>,
    response: Result<Vec<Json>, String>,
    r: Option<AssertionError>,
)
    requires
        a.expectation is RequestQueryParam ==> crate::response_assert::query_complete(uri@.query),
        call_ensures(Assertion::check, (&a, &uri, body, response), r),
    ensures
        ({
            let check = describe_assertion(a@);
            let expectation = describe_expectation(a@.expectation);
            &&& r matches Some(AssertionError::InvalidExpectation(id, m)) ==> id == a.id
                && match a.expectation {
                Expectation::RequestPath(_) => m@ == "Assertion: "@ + check + " - "@ + expectation
                    + ": SegmentNumber too big."@,
                Expectation::RequestQueryParam(_) => m@ == "Assertion: "@ + check + " - "@
                    + expectation + ": query param not found."@,
                Expectation::RequestBody(_) => match body {
                    None => m@ == check + " - no request body"@,
                    Some(Err(e)) => m@ == "Assertion: "@ + check + " - "@ + expectation
                        + ": failed to extract value: "@ + e@ + "."@,
                    Some(Ok(found)) => found@.len() == 0 && m@ == check
                        + " - expectation not found or empty - []"@,
                },
                Expectation::Constant(_) => false,
            }
            &&& r matches Some(AssertionError::InvalidActual(id, m)) ==> id == a.id
                && response is Err && m@ == check + " - "@ + describe_actual(a@.actual)
                + ": error: "@ + response->Err_0@
            &&& r matches Some(AssertionError::FailedAssert(id, m)) ==> id == a.id
        }),
{
    reveal_strlit("[");
    reveal_strlit("]");
    reveal_strlit(" - expectation not found or empty - []");
    reveal_strlit(" - expectation not found or empty - ");
    assert(" - expectation not found or empty - []"@ =~= " - expectation not found or empty - "@ + (
    "["@ + Seq::<char>::empty() + "]"@));
    if let Some(Ok(found)) = body {
        assert(items_view(found@).len() == found@.len());
        if found@.len() == 0 {
            assert(describe_items(items_view(found@)) =~= Seq::empty());
        }
        let check = describe_assertion(a@);
        assert(check + " - expectation not found or empty - "@ + ("["@ + Seq::<char>::empty()
            + "]"@) =~= check + (" - expectation not found or empty - "@ + ("["@ + Seq::<
            char,
        >::empty() + "]"@)));
    }
}

/// The id and the label of an error are those of the check and of what went wrong.
pub proof fn lemma_error(e: AssertionError, id: u32, label: &'static str)
    requires
        call_ensures(AssertionError::get_id, (&e,), id),
        call_ensures(AssertionError::label, (&e,), label),
    ensures
        match e {
            AssertionError::InvalidExpectation(i, _) => id == i && label@ == "InvalidExpectation"@,
            AssertionError::FailedAssert(i, _) => id == i && label@ == "FailedAssert"@,
            AssertionError::InvalidActual(i, _) => id == i && label@ == "InvalidActual"@,
        },
{
}

/// A check can be made where its paths select safely and where every parameter of the query has a
/// value. It cannot be made where it would follow a path that does not, or look up a parameter in
/// a query in which one has none.
pub proof fn lemma_checkable(a: Assertion, uri: UriParts, body: Option<&Json>, complete: bool, r: bool)
    requires
        call_ensures(Assertion::is_checkable, (&a, &uri, body), r),
        call_ensures(UriParts::is_query_complete, (&uri,), complete),
    ensures
        complete && (a.expectation matches Expectation::RequestBody(p) ==> selects_safely(p@)) && (
        a.actual matches Actual::FromJsonResponse(p) ==> selects_safely(p@)) ==> r,
        a.expectation is RequestQueryParam && !complete ==> !r,
        a.expectation matches Expectation::RequestBody(p) ==> body is Some && !selects_safely(p@)
            ==> !r,
        a.expectation is Constant ==> (a.actual matches Actual::FromJsonResponse(p)
            ==> !selects_safely(p@) ==> !r),
        a.expectation is Constant && a.actual is Constant ==> r,
{
}

/// Checks can be made where each of them can, and are made exactly then.
pub proof fn lemma_all_checkable(
    checks: ResponseAssertion,
    uri: UriParts,
    body: Option<&Json>,
    response: Json,
    each: Seq<bool>,
    can: bool,
    tried: Option<Result<(), Vec<AssertionError>>>,
    made: Result<(), Vec<AssertionError>>,
    empty: bool,
    none: ResponseAssertion,
)
    requires
        call_ensures(can_assert_response, (&checks, &uri, body), can),
        call_ensures(try_assert_response, (&checks, &uri, body, &response), tried),
        call_ensures(assert_response, (&checks, &uri, body, &response), made),
        call_ensures(ResponseAssertion::is_empty, (&checks,), empty),
        call_ensures(ResponseAssertion::default, (), none),
        each.len() == checks.assertions@.len(),
        forall|i: int|
            0 <= i < each.len() ==> call_ensures(
                Assertion::is_checkable,
                (&checks.assertions@[i], &uri, body),
                #[trigger] each[i],
            ),
    ensures
        can <==> forall|i: int| 0 <= i < each.len() ==> #[trigger] each[i],
        tried is Some <==> can,
        tried is Some ==> (tried->0 is Ok <==> made is Ok),
        empty <==> each.len() == 0,
        none.assertions@.len() == 0 && none.lua_assertion is None,
{
    let list = checks.assertions@;
    let view = json_option_view(body);
    assert forall|i: int| 0 <= i < each.len() implies #[trigger] each[i]
        == crate::response_assert::checkable(list[i]@, uri@, view) by {
        assert(call_ensures(Assertion::is_checkable, (&list[i], &uri, body), each[i]));
    }
    if can {
        assert forall|i: int| 0 <= i < each.len() implies #[trigger] each[i] by {
            assert(crate::response_assert::checkable(list[i]@, uri@, view));
        }
    }
    if forall|i: int| 0 <= i < each.len() ==> #[trigger] each[i] {
        assert forall|i: int| 0 <= i < list.len() implies crate::response_assert::checkable(
            (#[trigger] list[i])@,
            uri@,
            view,
        ) by {
            assert(each[i]);
        }
    }
}

} // verus!
