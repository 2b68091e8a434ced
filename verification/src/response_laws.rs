//! Laws of response checks: which value a check expects, and when it passes.

use vstd::prelude::*;

use crate::exchange::{check_response, BodyVerdict};
use crate::json::{json_same, Json, JsonView};
use crate::response_assert::{
    assert_response, assertions_view, errors_view, lemma_faults_joined, param_in, query_complete,
    response_faults, selected, Actual, Assertion, AssertionError, AssertionErrorView, Expectation,
    ResponseAssertion, UriParts,
};
use crate::serde_bridge::json_of;
use crate::text::{lemma_first_position, lemma_split_tail, lemma_split_whole, split_on};

verus! {

/// A path with the given segments: a slash before each.
pub open spec fn slashed(segments: Seq<Seq<char>>) -> Seq<char>
    decreases segments.len(),
{
    if segments.len() == 0 {
        Seq::empty()
    } else {
        slashed(segments.drop_last()) + seq!['/'] + segments.last()
    }
}

/// No text holds the character.
pub open spec fn free_of(texts: Seq<Seq<char>>, c: char) -> bool {
    forall|i: int| 0 <= i < texts.len() ==> !(#[trigger] texts[i]).contains(c)
}

proof fn lemma_slashed(segments: Seq<Seq<char>>)
    requires
        free_of(segments, '/'),
    ensures
        split_on(slashed(segments), '/') == seq![Seq::<char>::empty()] + segments,
    decreases segments.len(),
{
    if segments.len() == 0 {
        assert(seq![Seq::<char>::empty()] + segments =~= seq![Seq::<char>::empty()]);
    } else {
        let rest = segments.drop_last();
        assert forall|i: int| 0 <= i < rest.len() implies !(#[trigger] rest[i]).contains('/') by {
            assert(rest[i] == segments[i]);
        }
        assert(!segments[segments.len() - 1].contains('/'));
        lemma_slashed(rest);
        lemma_split_tail(slashed(rest), segments.last(), '/');
        assert((seq![Seq::<char>::empty()] + rest).push(segments.last()) =~= seq![
            Seq::<char>::empty(),
        ] + segments);
    }
}

/// A query with the given parameters.
pub open spec fn queried(params: Seq<(Seq<char>, Seq<char>)>) -> Seq<char>
    decreases params.len(),
{
    if params.len() == 0 {
        Seq::empty()
    } else {
        let last = params.last().0 + seq!['='] + params.last().1;
        if params.len() == 1 {
            last
        } else {
            queried(params.drop_last()) + seq!['&'] + last
        }
    }
}

/// Parameters that can be told apart in a query.
pub open spec fn clean(params: Seq<(Seq<char>, Seq<char>)>) -> bool {
    forall|i: int|
        0 <= i < params.len() ==> {
            &&& !(#[trigger] params[i]).0.contains('=')
            &&& !params[i].0.contains('&')
            &&& !params[i].1.contains('&')
        }
}

spec fn param_texts(params: Seq<(Seq<char>, Seq<char>)>) -> Seq<Seq<char>> {
    Seq::new(params.len(), |i: int| params[i].0 + seq!['='] + params[i].1)
}

proof fn lemma_queried(params: Seq<(Seq<char>, Seq<char>)>)
    requires
        clean(params),
        params.len() > 0,
    ensures
        split_on(queried(params), '&') == param_texts(params),
    decreases params.len(),
{
    let last = params.last().0 + seq!['='] + params.last().1;
    assert(!params[params.len() - 1].0.contains('&') && !params[params.len() - 1].1.contains('&'));
    assert(!last.contains('&')) by {
        if last.contains('&') {
            let i = choose|i: int| 0 <= i < last.len() && last[i] == '&';
            let n = params.last().0.len() as int;
            if i < n {
                assert(params.last().0[i] == '&');
            } else if i > n {
                assert(params.last().1[i - n - 1] == '&');
            }
        }
    }
    if params.len() == 1 {
        lemma_split_whole(last, '&');
        assert(seq![last] =~= param_texts(params));
    } else {
        let rest = params.drop_last();
        assert(clean(rest)) by {
            assert forall|i: int| 0 <= i < rest.len() implies {
                &&& !(#[trigger] rest[i]).0.contains('=')
                &&& !rest[i].0.contains('&')
                &&& !rest[i].1.contains('&')
            } by {
                assert(rest[i] == params[i]);
            }
        }
        lemma_queried(rest);
        lemma_split_tail(queried(rest), last, '&');
        assert(param_texts(rest).push(last) =~= param_texts(params));
    }
}

proof fn lemma_param_text(name: Seq<char>, value: Seq<char>)
    requires
        !name.contains('='),
    ensures
        ({
            let text = name + seq!['='] + value;
            let at = crate::text::first_position(text, '=');
            &&& at == name.len()
            &&& text.take(at) == name
            &&& text.skip(at + 1) == value
        }),
{
    let text = name + seq!['='] + value;
    let at = crate::text::first_position(text, '=');
    lemma_first_position(text, '=');
    if at < name.len() {
        assert(name[at] == '=');
    }
    if at > name.len() {
        assert(text[name.len() as int] == '=');
    }
    assert(text.take(at) =~= name);
    assert(text.skip(at + 1) =~= value);
}

proof fn lemma_params_complete(params: Seq<(Seq<char>, Seq<char>)>)
    requires
        clean(params),
        params.len() > 0,
    ensures
        query_complete(Some(queried(params))),
{
    lemma_queried(params);
    assert forall|i: int| 0 <= i < params.len() implies crate::text::first_position(
        #[trigger] param_texts(params)[i],
        '=',
    ) < param_texts(params)[i].len() by {
        assert(!params[i].0.contains('='));
        lemma_param_text(params[i].0, params[i].1);
    }
}

/// A query in which every parameter has a value is complete.
pub proof fn lemma_query_is_complete(
    uri: UriParts,
    params: Seq<(Seq<char>, Seq<char>)>,
    r: bool,
)
    requires
        clean(params),
        params.len() > 0,
        uri.query matches Some(query) && query@ == queried(params),
        call_ensures(UriParts::is_query_complete, (&uri,), r),
    ensures
        r,
{
    lemma_params_complete(params);
}

/// The last parameter of a name.
proof fn lemma_last_param(params: Seq<(Seq<char>, Seq<char>)>, n: int, j: int)
    requires
        clean(params),
        0 <= j < n <= params.len(),
        forall|k: int| j < k < n ==> (#[trigger] params[k]).0 != params[j].0,
    ensures
        param_in(param_texts(params).take(n), params[j].0) == Some(params[j].1),
    decreases n,
{
    let texts = param_texts(params).take(n);
    assert(texts.last() == param_texts(params)[n - 1]);
    assert(!params[n - 1].0.contains('='));
    lemma_param_text(params[n - 1].0, params[n - 1].1);
    if j < n - 1 {
        assert(params[n - 1].0 != params[j].0);
        assert(texts.drop_last() =~= param_texts(params).take(n - 1));
        lemma_last_param(params, n - 1, j);
    }
}

proof fn lemma_no_param(params: Seq<(Seq<char>, Seq<char>)>, n: int, name: Seq<char>)
    requires
        clean(params),
        0 <= n <= params.len(),
        forall|k: int| 0 <= k < n ==> (#[trigger] params[k]).0 != name,
    ensures
        param_in(param_texts(params).take(n), name) is None,
    decreases n,
{
    if n > 0 {
        let texts = param_texts(params).take(n);
        assert(texts.last() == param_texts(params)[n - 1]);
        assert(!params[n - 1].0.contains('='));
        lemma_param_text(params[n - 1].0, params[n - 1].1);
        assert(params[n - 1].0 != name);
        assert(texts.drop_last() =~= param_texts(params).take(n - 1));
        lemma_no_param(params, n - 1, name);
    }
}

/// There is one check, and it is this one.
pub open spec fn only(checks: ResponseAssertion, a: Assertion) -> bool {
    checks.assertions@ == seq![a]
}

/// The response does not pass: the one check says so.
pub open spec fn fails_with(r: Result<(), Vec<AssertionError>>, e: AssertionErrorView) -> bool {
    r matches Err(list) && list@.len() == 1 && list@[0]@ == e
}

/// The one check finds nothing to expect.
pub open spec fn expects_nothing(r: Result<(), Vec<AssertionError>>, id: u32) -> bool {
    r matches Err(list) && list@.len() == 1 && (list@[0]@ matches
        AssertionErrorView::InvalidExpectation(i, _) && i == id)
}

/// The one check finds something else than it expects.
pub open spec fn differs(r: Result<(), Vec<AssertionError>>, id: u32) -> bool {
    r matches Err(list) && list@.len() == 1 && (list@[0]@ matches AssertionErrorView::FailedAssert(
        i,
        _,
    ) && i == id)
}

/// The one check finds nothing in the response.
pub open spec fn finds_nothing(r: Result<(), Vec<AssertionError>>, id: u32) -> bool {
    r matches Err(list) && list@.len() == 1 && (list@[0]@ matches AssertionErrorView::InvalidActual(
        i,
        _,
    ) && i == id)
}

/// The outcome of one check that expects a text: it passes exactly where the constant is that text,
/// or where just that text is found in the response; else it differs, or finds nothing.
pub open spec fn text_checked(
    a: Assertion,
    response: JsonView,
    text: Seq<char>,
    r: Result<(), Vec<AssertionError>>,
) -> bool {
    match a.actual {
        Actual::Constant(c) => if c@ == JsonView::String(text) {
            r is Ok
        } else {
            differs(r, a.id)
        },
        Actual::FromJsonResponse(path) => match selected(path@, response) {
            Ok(found) => if found == seq![JsonView::String(text)] {
                r is Ok
            } else {
                differs(r, a.id)
            },
            Err(_) => finds_nothing(r, a.id),
        },
    }
}

proof fn lemma_one_fault(
    checks: ResponseAssertion,
    a: Assertion,
    uri: UriParts,
    body: Option<&Json>,
    response: Json,
    r: Result<(), Vec<AssertionError>>,
)
    requires
        only(checks, a),
        call_ensures(assert_response, (&checks, &uri, body, &response), r),
    ensures
        ({
            let b = crate::response_assert::json_option_view(body);
            let fault = crate::response_assert::check_fault(
                a@,
                uri@,
                crate::response_assert::body_selection(a@, b),
                crate::response_assert::response_selection(a@, response@),
            );
            match fault {
                None => r is Ok,
                Some(e) => fails_with(r, e),
            }
        }),
{
    let list = assertions_view(checks.assertions@);
    assert(list =~= seq![a@]);
    assert(list.drop_last() =~= Seq::empty());
    assert(list.last() == a@);
    let b = crate::response_assert::json_option_view(body);
    let faults = response_faults(list, uri@, b, response@);
    assert(response_faults(list.drop_last(), uri@, b, response@) =~= Seq::empty());
    if let Err(errors) = r {
        assert(errors_view(errors@) == faults);
        assert(errors@.len() == faults.len());
        if errors@.len() == 1 {
            assert(errors@[0]@ == errors_view(errors@)[0]);
        }
    }
}

proof fn lemma_text_values(found: Seq<JsonView>, text: Seq<char>)
    ensures
        crate::response_assert::values_same(found, seq![JsonView::String(text)]) <==> found == seq![
            JsonView::String(text),
        ],
        crate::response_assert::values_same(seq![JsonView::String(text)], found) <==> found == seq![
            JsonView::String(text),
        ],
{
    let one = seq![JsonView::String(text)];
    if crate::response_assert::values_same(found, one) {
        assert(json_same(found[0], one[0]));
        assert(found =~= one);
    }
    if crate::response_assert::values_same(one, found) {
        assert(json_same(one[0], found[0]));
        assert(found =~= one);
    }
    if found == one {
        assert(json_same(found[0], one[0]));
    }
}

/// A check that expects segment `n` of the path of an address expects the text between the `n`th
/// slash and the next one.
pub proof fn lemma_path_is_checked(
    checks: ResponseAssertion,
    a: Assertion,
    n: int,
    uri: UriParts,
    segments: Seq<Seq<char>>,
    body: Option<&Json>,
    response: Json,
    r: Result<(), Vec<AssertionError>>,
)
    requires
        only(checks, a),
        a.expectation matches Expectation::RequestPath(number) && number@ == n,
        n >= 1,
        free_of(segments, '/'),
        uri.path@ == slashed(segments),
        call_ensures(assert_response, (&checks, &uri, body, &response), r),
    ensures
        n <= segments.len() ==> text_checked(a, response@, segments[n - 1], r),
        n > segments.len() ==> expects_nothing(r, a.id),
{
    lemma_slashed(segments);
    lemma_one_fault(checks, a, uri, body, response, r);
    if n <= segments.len() {
        let text = segments[n - 1];
        assert((seq![Seq::<char>::empty()] + segments)[n] == text);
        lemma_found(a, response@, text);
    }
}

proof fn lemma_found(a: Assertion, response: JsonView, text: Seq<char>)
    ensures
        match a.actual {
            Actual::Constant(c) => crate::response_assert::values_same(
                seq![JsonView::String(text)],
                seq![c@],
            ) <==> c@ == JsonView::String(text),
            Actual::FromJsonResponse(path) => selected(path@, response) matches Ok(found) ==> (
            crate::response_assert::values_same(found, seq![JsonView::String(text)]) <==> found
                == seq![JsonView::String(text)]),
        },
{
    match a.actual {
        Actual::Constant(c) => {
            lemma_text_values(seq![c@], text);
            if seq![c@] == seq![JsonView::String(text)] {
                assert(seq![c@][0] == seq![JsonView::String(text)][0]);
            }
        },
        Actual::FromJsonResponse(path) => {
            if let Ok(found) = selected(path@, response) {
                lemma_text_values(found, text);
            }
        },
    }
}

/// A check that expects a parameter of the query expects the value of the last one of that name.
pub proof fn lemma_query_is_checked(
    checks: ResponseAssertion,
    a: Assertion,
    name: Seq<char>,
    uri: UriParts,
    params: Seq<(Seq<char>, Seq<char>)>,
    j: int,
    body: Option<&Json>,
    response: Json,
    r: Result<(), Vec<AssertionError>>,
)
    requires
        only(checks, a),
        a.expectation matches Expectation::RequestQueryParam(asked) && asked@ == name,
        clean(params),
        params.len() > 0,
        uri.query matches Some(query) && query@ == queried(params),
        call_ensures(assert_response, (&checks, &uri, body, &response), r),
    ensures
        0 <= j < params.len() && params[j].0 == name && (forall|k: int|
            j < k < params.len() ==> (#[trigger] params[k]).0 != name) ==> text_checked(
            a,
            response@,
            params[j].1,
            r,
        ),
        (forall|k: int| 0 <= k < params.len() ==> (#[trigger] params[k]).0 != name)
            ==> expects_nothing(r, a.id),
{
    let texts = param_texts(params);
    lemma_queried(params);
    lemma_one_fault(checks, a, uri, body, response, r);
    assert(texts.take(params.len() as int) =~= texts);
    if 0 <= j < params.len() && params[j].0 == name && (forall|k: int|
        j < k < params.len() ==> (#[trigger] params[k]).0 != name) {
        lemma_last_param(params, params.len() as int, j);
        lemma_found(a, response@, params[j].1);
    }
    if forall|k: int| 0 <= k < params.len() ==> (#[trigger] params[k]).0 != name {
        lemma_no_param(params, params.len() as int, name);
    }
}

/// An address without a query has no parameter to expect.
pub proof fn lemma_no_query(
    checks: ResponseAssertion,
    a: Assertion,
    uri: UriParts,
    body: Option<&Json>,
    response: Json,
    r: Result<(), Vec<AssertionError>>,
)
    requires
        only(checks, a),
        a.expectation is RequestQueryParam,
        uri.query is None,
        call_ensures(assert_response, (&checks, &uri, body, &response), r),
    ensures
        expects_nothing(r, a.id),
{
    lemma_one_fault(checks, a, uri, body, response, r);
}

/// The same values, one by one.
pub open spec fn alike(a: Seq<JsonView>, b: Seq<JsonView>) -> bool {
    a.len() == b.len() && forall|i: int| 0 <= i < a.len() ==> json_same(#[trigger] a[i], b[i])
}

/// A check that expects a constant passes exactly where it is what is compared with it: the other
/// constant, or all that its path finds in the response.
pub proof fn lemma_constant_is_checked(
    checks: ResponseAssertion,
    a: Assertion,
    expected: JsonView,
    uri: UriParts,
    body: Option<&Json>,
    response: Json,
    r: Result<(), Vec<AssertionError>>,
)
    requires
        only(checks, a),
        a.expectation matches Expectation::Constant(c) && c@ == expected,
        call_ensures(assert_response, (&checks, &uri, body, &response), r),
    ensures
        match a.actual {
            Actual::Constant(c) => if json_same(expected, c@) {
                r is Ok
            } else {
                differs(r, a.id)
            },
            Actual::FromJsonResponse(path) => match selected(path@, response@) {
                Ok(found) => if found.len() == 1 && json_same(found[0], expected) {
                    r is Ok
                } else {
                    differs(r, a.id)
                },
                Err(_) => finds_nothing(r, a.id),
            },
        },
{
    lemma_one_fault(checks, a, uri, body, response, r);
    match a.actual {
        Actual::Constant(c) => {
            let one = seq![expected];
            let other = seq![c@];
            assert(crate::response_assert::values_same(one, other) <==> json_same(expected, c@)) by {
                if crate::response_assert::values_same(one, other) {
                    assert(json_same(one[0], other[0]));
                }
            }
        },
        Actual::FromJsonResponse(path) => {
            if let Ok(found) = selected(path@, response@) {
                let one = seq![expected];
                assert(crate::response_assert::values_same(found, one) <==> found.len() == 1
                    && json_same(found[0], expected)) by {
                    if crate::response_assert::values_same(found, one) {
                        assert(json_same(found[0], one[0]));
                    }
                }
            }
        },
    }
}

/// A check that expects what its path finds in the body of the request passes exactly where it
/// finds something there and the same in the response, value by value.
pub proof fn lemma_body_is_checked(
    checks: ResponseAssertion,
    a: Assertion,
    uri: UriParts,
    body: Option<&Json>,
    response: Json,
    r: Result<(), Vec<AssertionError>>,
)
    requires
        only(checks, a),
        a.expectation is RequestBody,
        call_ensures(assert_response, (&checks, &uri, body, &response), r),
    ensures
        ({
            let path = a.expectation->RequestBody_0@;
            match body {
                None => expects_nothing(r, a.id),
                Some(b) => match selected(path, b@) {
                    Err(_) => expects_nothing(r, a.id),
                    Ok(expected) => if expected.len() == 0 {
                        expects_nothing(r, a.id)
                    } else {
                        match a.actual {
                            Actual::Constant(c) => if alike(expected, seq![c@]) {
                                r is Ok
                            } else {
                                differs(r, a.id)
                            },
                            Actual::FromJsonResponse(p) => match selected(p@, response@) {
                                Ok(found) => if alike(found, expected) {
                                    r is Ok
                                } else {
                                    differs(r, a.id)
                                },
                                Err(_) => finds_nothing(r, a.id),
                            },
                        }
                    },
                },
            }
        }),
{
    lemma_one_fault(checks, a, uri, body, response, r);
}

/// What is wrong with a response, viewed; nothing where it passes.
pub open spec fn faults_of(r: Result<(), Vec<AssertionError>>) -> Seq<AssertionErrorView> {
    match r {
        Ok(_) => Seq::empty(),
        Err(list) => Seq::new(list@.len(), |i: int| list@[i]@),
    }
}

/// Two lists of checks one after the other find what the first finds, and then what the second
/// finds; and a list of checks that finds something does not pass.
pub proof fn lemma_checks_joined(
    first: ResponseAssertion,
    second: ResponseAssertion,
    both: ResponseAssertion,
    uri: UriParts,
    body: Option<&Json>,
    response: Json,
    a: Result<(), Vec<AssertionError>>,
    b: Result<(), Vec<AssertionError>>,
    r: Result<(), Vec<AssertionError>>,
)
    requires
        both.assertions@ == first.assertions@ + second.assertions@,
        call_ensures(assert_response, (&first, &uri, body, &response), a),
        call_ensures(assert_response, (&second, &uri, body, &response), b),
        call_ensures(assert_response, (&both, &uri, body, &response), r),
    ensures
        faults_of(r) == faults_of(a) + faults_of(b),
        r is Ok <==> a is Ok && b is Ok,
{
    let x = assertions_view(first.assertions@);
    let y = assertions_view(second.assertions@);
    let z = assertions_view(both.assertions@);
    let view = crate::response_assert::json_option_view(body);
    assert(z =~= x + y);
    lemma_faults_joined(x, y, uri@, view, response@);
    assert(faults_of(a) =~= response_faults(x, uri@, view, response@));
    assert(faults_of(b) =~= response_faults(y, uri@, view, response@));
    assert(faults_of(r) =~= response_faults(z, uri@, view, response@));
}

/// A list without checks passes.
pub proof fn lemma_nothing_checked(
    checks: ResponseAssertion,
    uri: UriParts,
    body: Option<&Json>,
    response: Json,
    r: Result<(), Vec<AssertionError>>,
)
    requires
        checks.assertions@.len() == 0,
        call_ensures(assert_response, (&checks, &uri, body, &response), r),
    ensures
        r is Ok,
{
}

/// Checking the bytes of a body is checking the value that they denote, without a body of the
/// request; a body that denotes none is not readable, and nothing is checked where there is no
/// check or no body.
pub proof fn lemma_bytes_are_checked(
    checks: ResponseAssertion,
    uri: UriParts,
    bytes: &[u8],
    response: Json,
    checked: Result<(), Vec<AssertionError>>,
    r: BodyVerdict,
    none: BodyVerdict,
)
    requires
        call_ensures(check_response, (&checks, &uri, Some(bytes)), r),
        call_ensures(check_response, (&checks, &uri, None), none),
        json_of(bytes@) matches Ok(v) ==> v == response@ && call_ensures(
            assert_response,
            (&checks, &uri, None, &response),
            checked,
        ),
    ensures
        none is NotChecked,
        checks.assertions@.len() == 0 ==> r is NotChecked,
        checks.assertions@.len() > 0 ==> match json_of(bytes@) {
            Err(message) => r matches BodyVerdict::Unreadable(text) && text@ == message,
            Ok(_) => {
                &&& r is Passed <==> checked is Ok
                &&& r is Passed || r is Failed
                &&& r matches BodyVerdict::Failed(list) ==> {
                    &&& list@.len() == faults_of(checked).len()
                    &&& forall|i: int|
                        0 <= i < list@.len() ==> match faults_of(checked)[i] {
                            AssertionErrorView::InvalidExpectation(id, _) => (
                            #[trigger] list@[i]).0 == id && list@[i].1@ == "InvalidExpectation"@,
                            AssertionErrorView::FailedAssert(id, _) => list@[i].0 == id
                                && list@[i].1@ == "FailedAssert"@,
                            AssertionErrorView::InvalidActual(id, _) => list@[i].0 == id
                                && list@[i].1@ == "InvalidActual"@,
                        }
                }
            },
        },
{
    if checks.assertions@.len() > 0 && json_of(bytes@) is Ok {
        let list = assertions_view(checks.assertions@);
        let faults = response_faults(list, uri@, None, response@);
        assert(faults_of(checked) =~= faults);
    }
}

} // verus!
