//! Checks of responses.

use overload::exchange::{
    begin_updates, body_updates, check_body, check_response, head_updates, lua_updates,
    try_check_response, Await, BodyVerdict, Exchange, Head, HttpRequestState,
};
use overload::json::{Json, Number};
use overload::lua::LuaAssertionResult;
use overload::metrics::{Change, Metric};
use overload::response_assert::{
    assert_response, can_assert_response, try_assert_response, Actual, Assertion, AssertionError,
    Expectation, JsonPath, ResponseAssertion, SegmentNumber, UriParts,
};
use serde_json::Value;

fn from_value(value: &Value) -> Json {
    match value {
        Value::Null => Json::Null,
        Value::Bool(b) => Json::Bool(*b),
        Value::Number(n) => Json::Number(match (n.as_u64(), n.as_i64()) {
            (Some(u), _) => Number::PosInt(u),
            (None, Some(i)) => Number::NegInt(i),
            (None, None) => Number::Float(n.to_string()),
        }),
        Value::String(s) => Json::String(s.clone()),
        Value::Array(v) => Json::Array(v.iter().map(from_value).collect()),
        Value::Object(m) => {
            Json::Object(m.iter().map(|(k, v)| (k.clone(), from_value(v))).collect())
        }
    }
}

fn json(text: &str) -> Json {
    from_value(&serde_json::from_str(text).unwrap())
}

fn path(text: &str) -> JsonPath {
    JsonPath::try_from(text).unwrap()
}

fn json_response() -> Json {
    json(
        r#"{
    "firstName": "John",
    "lastName": "doe",
    "age": 26,
    "address": {
        "streetAddress": "naist street",
        "city": "Nara",
        "postalCode": "630-0192"
    },
    "phoneNumbers": [
        {
            "type": "iPhone",
            "number": "0123-4567-8888"
        },
        {
            "type": "home",
            "number": "0123-4567-8910"
        }
    ]
}"#,
    )
}

#[test]
fn test_de_serialize() {
    let actual = Actual::FromJsonResponse(path("$.phoneNumbers[:1].type"));
    let assertion = Assertion {
        id: 123,
        expectation: Expectation::Constant(Json::text("iPhone")),
        actual,
    };
    let validator = ResponseAssertion { assertions: vec![assertion], lua_assertion: None };
    println!("{:?}", &validator);
    assert!(matches!(
        &validator.assertions.get(0).unwrap().expectation,
        Expectation::Constant(_)
    ));
    match &validator.assertions.get(0).unwrap().expectation {
        Expectation::Constant(x) => {
            assert_eq!(x.as_str().unwrap(), "iPhone")
        }
        _ => {
            panic!()
        }
    }
    match &validator.assertions.get(0).unwrap().actual {
        Actual::FromJsonResponse(p) => assert_eq!(p.path(), "$.phoneNumbers[:1].type"),
        _ => panic!(),
    }
}

#[test]
fn test_assertion() {
    let mut assertions = vec![];
    let assertion = Assertion {
        id: 0,
        expectation: Expectation::RequestPath(SegmentNumber::new(2_u8).unwrap()),
        actual: Actual::FromJsonResponse(path("$.phoneNumbers[0].type")),
    };
    assertions.push(assertion);
    let assertion = Assertion {
        id: 0,
        expectation: Expectation::Constant(Json::String("Nara".to_string())),
        actual: Actual::FromJsonResponse(path("$.address.city")),
    };
    assertions.push(assertion);

    let assertion = Assertion {
        id: 0,
        expectation: Expectation::RequestBody(path("$.address.city")),
        actual: Actual::FromJsonResponse(path("$.address.city")),
    };
    assertions.push(assertion);

    let assertion = Assertion {
        id: 0,
        expectation: Expectation::RequestQueryParam("age".to_string()),
        actual: Actual::Constant(Json::String("16".to_string())),
    };
    assertions.push(assertion);

    let assertions = ResponseAssertion { assertions, lua_assertion: None };
    let uri = UriParts::parse("http://localhost:3030/hello/iPhone?eanye=dxwr&age=16").unwrap();

    let response = json_response();
    println!("selector: {:?}", path("$").select(&response));

    assert!(can_assert_response(&assertions, &uri, None));
    let assert_result = assert_response(&assertions, &uri, Some(&response), &response);
    println!("{:?}", &assert_result);
    assert!(&assert_result.is_ok());
}

fn one(expectation: Expectation, actual: Actual) -> ResponseAssertion {
    ResponseAssertion {
        assertions: vec![Assertion { id: 7, expectation, actual }],
        lua_assertion: None,
    }
}

#[test]
fn each_way_to_fail() {
    let uri = UriParts::parse("http://localhost:3030/hello/iPhone?age=16").unwrap();
    let response = json_response();
    let failure = |expectation: Expectation, actual: Actual| -> AssertionError {
        let checks = one(expectation, actual);
        assert!(can_assert_response(&checks, &uri, None));
        let mut errors = assert_response(&checks, &uri, None, &response).unwrap_err();
        assert_eq!(errors.len(), 1);
        let error = errors.pop().unwrap();
        assert_eq!(error.get_id(), 7);
        error
    };
    let city = || Actual::FromJsonResponse(path("$.address.city"));
    assert_eq!(failure(Expectation::Constant(Json::text("Osaka")), city()).label(), "FailedAssert");
    assert_eq!(
        failure(Expectation::RequestBody(path("$.a")), city()).label(),
        "InvalidExpectation"
    );
    assert_eq!(
        failure(Expectation::RequestPath(SegmentNumber::new(9).unwrap()), city()).label(),
        "InvalidExpectation"
    );
    assert_eq!(
        failure(
            Expectation::Constant(Json::text("x")),
            Actual::FromJsonResponse(path("$.nothing.here"))
        )
        .label(),
        "FailedAssert"
    );
    let check = Assertion { id: 7, expectation: Expectation::Constant(Json::text("x")), actual: city() };
    let error = check.check(&uri, None, Err("no selection".to_string())).unwrap();
    assert_eq!(error.label(), "InvalidActual");
    assert!(check.check(&uri, None, Ok(vec![Json::text("x")])).is_none());
}

#[test]
fn a_malformed_path_is_refused() {
    assert!(JsonPath::try_from("$.[").is_err());
    assert!(path("$.a[?(@.b == 1)]").is_safe());
    assert!(path("$.a[0]").is_safe());
    assert_eq!(path("$.a[1]").select(&json(r#"{"a":[1,2]}"#)).unwrap(), vec![json("2")]);
    assert!(SegmentNumber::new(0).is_none());
    assert_eq!(SegmentNumber::new(3).unwrap().get(), 3);
}

const STORE: &str = r#"{
    "b": [
        {"p": 5, "t": "one", "in": true, "x": {"y": 1}},
        {"p": 10, "t": "two", "in": false},
        {"p": 20.5, "t": "a: b?", "in": true, "x": {"y": 2}},
        {"t": "none"}
    ],
    "a: b": 1,
    "c?d": [1, 2, 3],
    "e": {"f": {"p": 3}, "g": {"p": 30}}
}"#;

#[test]
fn paths_with_filters_select() {
    let document: Value = serde_json::from_str(STORE).unwrap();
    let paths = [
        "$.b[?(@.p < 10)]",
        "$.b[?(@.p <= 10)].t",
        "$.b[?(@.p > 5 && @.in == true)]",
        "$.b[?(@.p == 5 || @.t == 'two')].p",
        "$.b[?(@.t != \"one\")].t",
        "$.b[?(@.x)]",
        "$.b[?(@.x.y >= 2)].p",
        "$.b[?((@.p < 6) || (@.p > 20 && @.in == true))].t",
        "$.b[?(@.p == @.x.y)]",
        "$.b[?(@.t == 'a: b?')].p",
        "$..[?(@.p > 5)]",
        "$.e[?(@.p > 5)]",
        "$.b[*].p",
        "$.b[0:2].t",
        "$.b[-1].t",
        "$.b[0,2].t",
        "$['a: b']",
        "$['c?d'][1]",
        "$.b[?(@.nothing == 1)]",
        "$.b[?(@.t > 5)]",
        "$.c[?(@.p < -1.5)]",
        "$.b[?(@['p'] == 5)].t",
        "$.b[?(@.x['y'] == 2)].t",
        "$.b[?(@.['p'] == 5)].t",
        "$.b[?(10 == @.p)].t",
        "$.b[?(10 > @['p'])]",
        "$.b[?('two' == @.t)].p",
        "$.b[?(true == @.in)].p",
        "$.b[?(1 == 1)].t",
        "$.b[?('a' == 'b')].t",
        "$.b[?(@.p == $.b[0].p)].t",
        "$.b[?(@.t == $.b[1]['t'])].p",
        "$.b[?($.b[0].p == @.p)].t",
        "$.b[?(@.p > 1e1)].t",
        "$.b[?(@.p < 1.5E2 && @.p > 1e-9)].t",
        "$.b[?(@..y == 1)].t",
        "$.b[?(@.*)]",
        "$.b[?(@.x[?(@.y)])].t",
        "$.b[?(@.t[0])].p",
        "$.b[?(@[0])].p",
        "$.e[?(@[*])]",
        "$.b[?(@.p < 6)\u{a0}]",
        "$.b[?(((((((((((((((((((((((((((((((((((@.p == 5)))))))))))))))))))))))))))))))))))].t",
        "$.b [?(@.p == 1 && ",
    ];
    for text in paths {
        let path = path(text);
        assert!(path.is_safe(), "{text}");
        let expected: Vec<Json> =
            jsonpath_lib::select(&document, text).unwrap().into_iter().map(from_value).collect();
        assert_eq!(path.select(&from_value(&document)).unwrap(), expected, "{text}");
    }
    let cheap = path("$.b[?(@.p < 10)].t").select(&from_value(&document)).unwrap();
    assert_eq!(cheap, vec![json("\"one\"")]);
    assert_eq!(path("$['a: b']").select(&from_value(&document)).unwrap(), vec![json("1")]);
}

#[test]
fn paths_that_may_not_select_are_told_apart() {
    let paths = [
        "$.a[::0]",
        "$.a[0:2:00]",
        "$.a[?(@.b[0:1] == 1)]",
        "$.a[?(@['x','y'] == 1)]",
        "$.a[?(@.b == 1e999)]",
        "$.a[?(@.b == -inf)]",
        "$.a[?(@.b[0] == 1)]",
        "$.a[?(@[*] == 1)]",
        "$.a[?(@..['b'] == 1)]",
        "$.a[?($.b == 1)]",
        "$.a[?(@.b == 'x','y')]",
    ];
    for text in paths {
        assert!(!path(text).is_safe(), "{text}");
    }
    let long = format!("$.a[?(@.b == 1{})]", "0".repeat(250));
    assert!(path(&long).is_safe());
    let too_long = format!("$.a[?(@.b == 1{})]", "0".repeat(350));
    assert!(!path(&too_long).is_safe());
}

#[test]
fn only_the_paths_that_are_followed_must_be_safe() {
    let uri = UriParts::parse("http://localhost/a").unwrap();
    let unsafe_path = || path("$.a[?(@.b[0] == 1)]");
    let in_body = one(Expectation::RequestBody(unsafe_path()), Actual::Constant(json("1")));
    let nothing_expected = one(
        Expectation::RequestBody(path("$.x")),
        Actual::FromJsonResponse(unsafe_path()),
    );
    let response = json("{}");
    let body = json(r#"{"y":1}"#);
    let label = |checks: &ResponseAssertion, body: Option<&Json>| {
        try_assert_response(checks, &uri, body, &response)
            .map(|r| r.unwrap_err().iter().map(|e| e.label().to_string()).collect::<Vec<_>>())
    };
    let invalid = Some(vec!["InvalidExpectation".to_string()]);
    assert_eq!(label(&in_body, None), invalid);
    assert_eq!(label(&in_body, Some(&body)), None);
    assert_eq!(label(&nothing_expected, None), invalid);
    assert_eq!(label(&nothing_expected, Some(&body)), invalid);
    assert_eq!(label(&nothing_expected, Some(&json(r#"{"x":1}"#))), None);
    let always = one(Expectation::Constant(json("1")), Actual::FromJsonResponse(unsafe_path()));
    assert_eq!(label(&always, None), None);
    assert!(try_check_response(&always, &uri, Some(b"{}")).is_none());
    assert!(matches!(
        try_check_response(&always, &uri, Some(b"{")),
        Some(BodyVerdict::Unreadable(_))
    ));
    assert!(matches!(try_check_response(&always, &uri, None), Some(BodyVerdict::NotChecked)));
}

#[test]
fn numbers_keep_their_value() {
    let uri = UriParts::parse("http://localhost/a").unwrap();
    let check = |expected: &str| {
        let checks = one(
            Expectation::Constant(Json::Number(Number::Float(expected.to_string()))),
            Actual::FromJsonResponse(path("$.n")),
        );
        let response = Json::Object(vec![(
            "n".to_string(),
            Json::Number(Number::Float("1.9999999999999998".to_string())),
        )]);
        assert_response(&checks, &uri, None, &response).is_ok()
    };
    assert!(check("1.9999999999999998"));
    assert!(!check("2.0"));
}

#[test]
fn a_response_is_checked_with_filters() {
    let uri = UriParts::parse("http://localhost/a").unwrap();
    let check = |id: u32, expected: &str, text: &str| Assertion {
        id,
        expectation: Expectation::Constant(json(expected)),
        actual: Actual::FromJsonResponse(path(text)),
    };
    let list = |assertions: Vec<Assertion>| ResponseAssertion { assertions, lua_assertion: None };
    let response = json(STORE);
    let first = || vec![check(1, "\"one\"", "$.b[?(@.p < 10)].t"), check(2, "2", "$['a: b']")];
    let second = || vec![check(3, "5", "$.b[?(@.in == false)].p"), check(4, "3", "$['c?d'][2]")];
    let all: Vec<Assertion> = first().into_iter().chain(second()).collect();
    let ids = |assertions: Vec<Assertion>| -> Vec<u32> {
        let checks = list(assertions);
        assert!(can_assert_response(&checks, &uri, None));
        match assert_response(&checks, &uri, None, &response) {
            Ok(()) => vec![],
            Err(errors) => errors.iter().map(|e| e.get_id()).collect(),
        }
    };
    // what is wrong by both lists is what is wrong by one and then by the other
    assert_eq!(ids(first()), vec![2]);
    assert_eq!(ids(second()), vec![3]);
    assert_eq!(ids(all), vec![2, 3]);
}

#[test]
fn a_response_passes_where_every_check_does() {
    let uri = UriParts::parse("http://localhost:3030/hello/iPhone?age=16").unwrap();
    let good = || Assertion {
        id: 1,
        expectation: Expectation::Constant(Json::text("Nara")),
        actual: Actual::FromJsonResponse(path("$.address.city")),
    };
    let bad = Assertion { id: 2, expectation: Expectation::Constant(json("1")), actual: Actual::Constant(json("2")) };
    let both = ResponseAssertion { assertions: vec![good(), bad], lua_assertion: None };
    let errors = assert_response(&both, &uri, None, &json_response()).unwrap_err();
    assert_eq!(errors.len(), 1);
    assert_eq!(errors[0].get_id(), 2);
    let fine = ResponseAssertion { assertions: vec![good(), good()], lua_assertion: None };
    assert!(assert_response(&fine, &uri, None, &json_response()).is_ok());
    assert!(ResponseAssertion::default().is_empty());
}

#[test]
fn bodies_are_judged() {
    let uri = UriParts::parse("http://localhost/a").unwrap();
    let checks = one(
        Expectation::Constant(Json::text("world")),
        Actual::FromJsonResponse(path("$.hello")),
    );
    let judge = |body: Option<&[u8]>| check_response(&checks, &uri, body);
    assert!(matches!(judge(Some(br#"{"hello":"world"}"#)), BodyVerdict::Passed));
    match judge(Some(br#"{"hello":"you"}"#)) {
        BodyVerdict::Failed(list) => assert_eq!(list, vec![(7, "FailedAssert".to_string())]),
        other => panic!("unexpected: {:?}", other),
    }
    match judge(Some(b"{")) {
        BodyVerdict::Unreadable(text) => {
            let error = serde_json::from_slice::<Value>(b"{").unwrap_err();
            assert_eq!(text, error.to_string());
        }
        other => panic!("unexpected: {:?}", other),
    }
    assert!(matches!(judge(None), BodyVerdict::NotChecked));
    let none = ResponseAssertion::default();
    assert!(matches!(check_response(&none, &uri, Some(b"{")), BodyVerdict::NotChecked));
    assert!(matches!(
        check_body(&checks, &uri, Some(Ok(json(r#"{"hello":"world"}"#)))),
        BodyVerdict::Passed
    ));
}

#[test]
fn a_request_on_its_way() {
    let mut exchange = Exchange::new();
    let look = exchange.look();
    assert!(look.begins);
    assert_eq!(look.wait, Await::Response);
    assert!(!exchange.look().begins);
    assert!(exchange.on_response(true));
    assert_eq!(exchange.look().wait, Await::Body);
    assert_eq!(exchange.state, HttpRequestState::ResponseReceived);

    let mut failed = Exchange::new();
    failed.look();
    assert!(!failed.on_response(false));
    assert_eq!(failed.look().wait, Await::Nothing);
}

#[test]
fn a_request_is_counted_once() {
    let count = |received: bool| {
        let mut exchange = Exchange::new();
        let mut list = begin_updates(exchange.look());
        list.extend(begin_updates(exchange.look()));
        let head = if received {
            Head::Received { status: "404".to_string(), elapsed: 3 }
        } else {
            Head::Failed("broken".to_string())
        };
        list.extend(head_updates(&head));
        exchange.on_response(received);
        list.extend(begin_updates(exchange.look()));
        if received {
            list.extend(body_updates(&BodyVerdict::Unreadable("no".to_string())));
            list.extend(begin_updates(exchange.look()));
        }
        let of = |metric: Metric| -> Vec<Vec<String>> {
            list.iter().filter(|u| u.metric == metric).map(|u| u.labels.clone()).collect()
        };
        (of(Metric::UpstreamRequestCount), of(Metric::UpstreamRequestStatusCount))
    };
    assert_eq!(count(true), (vec![vec![]], vec![vec!["404".to_string()]]));
    assert_eq!(count(false), (vec![vec![]], vec![vec!["broken".to_string()]]));
}

#[test]
fn failed_checks_of_lua_functions_are_counted() {
    let row = |assertion_id: i32, assertion_result: Result<(), String>| LuaAssertionResult {
        assertion_id,
        assertion_result,
    };
    let list = vec![
        row(1, Err("a".to_string())),
        row(2, Ok(())),
        row(i32::MAX, Err("b".to_string())),
        row(-1, Err("c".to_string())),
    ];
    let all: Vec<Vec<String>> = lua_updates(&list)
        .into_iter()
        .map(|u| {
            assert_eq!(u.metric, Metric::AssertionFailure);
            assert_eq!(u.change, Change::IncrementBy(1));
            u.labels
        })
        .collect();
    assert_eq!(all, vec![vec!["1", "a"], vec!["2147483647", "b"], vec!["4294967295", "c"]]);
    assert!(lua_updates(&vec![]).is_empty());
}

#[test]
fn measures_of_an_exchange() {
    let mut exchange = Exchange::new();
    let begun = begin_updates(exchange.look());
    assert_eq!(begun.len(), 1);
    assert_eq!(begun[0].metric, Metric::UpstreamRequestCount);
    assert_eq!(begun[0].change, Change::IncrementBy(1));
    assert!(begin_updates(exchange.look()).is_empty());

    let head = head_updates(&Head::Received { status: "200".to_string(), elapsed: 17 });
    assert_eq!(head.len(), 2);
    assert_eq!(head[0].metric, Metric::UpstreamResponseTime);
    assert_eq!(head[0].labels, vec!["200"]);
    assert_eq!(head[0].change, Change::Observe(17));
    assert_eq!(head[1].metric, Metric::UpstreamRequestStatusCount);
    assert_eq!(head[1].labels, vec!["200"]);
    assert_eq!(head[1].change, Change::IncrementBy(1));

    let head = head_updates(&Head::Failed("connection closed".to_string()));
    assert_eq!(head.len(), 1);
    assert_eq!(head[0].metric, Metric::UpstreamRequestStatusCount);
    assert_eq!(head[0].labels, vec!["connection closed"]);

    assert!(body_updates(&BodyVerdict::Passed).is_empty());
    assert!(body_updates(&BodyVerdict::NotChecked).is_empty());
    let body = body_updates(&BodyVerdict::Unreadable("no value".to_string()));
    assert_eq!(body.len(), 1);
    assert_eq!(body[0].labels, vec!["parse_err", "no value"]);
    let failed = vec![(3, "FailedAssert".to_string()), (11, "InvalidActual".to_string())];
    let body = body_updates(&BodyVerdict::Failed(failed));
    assert_eq!(body.len(), 2);
    assert_eq!(body[0].labels, vec!["3", "FailedAssert"]);
    assert_eq!(body[1].labels, vec!["11", "InvalidActual"]);
    assert_eq!(body[1].metric, Metric::AssertionFailure);
    assert_eq!(body[1].change, Change::IncrementBy(1));
}
