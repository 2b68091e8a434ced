//! Files of requests.

use overload::http_req::HttpReq;
use overload::text_map::TextMap;
use overload::upload::{
    headers_text, needs_room, parse_headers, req_from_row, try_req_from_row, upload_response,
    CsvImport, FileParts, HttpReqCsvHelper, PartStep, RowError,
};

fn row(url: &str, method: &str, body: &str, headers: &str) -> HttpReqCsvHelper {
    HttpReqCsvHelper {
        method: method.to_string(),
        url: url.to_string(),
        body: Some(body.to_string()),
        headers: headers.to_string(),
    }
}

#[test]
fn test_csv_to_sqlite() {
    let rows = vec![
        row("http://httpbin.org/anything/11", "GET", "", "{}"),
        row("http://httpbin.org/anything/13", "GET", "", "{}"),
        row(
            "http://httpbin.org/anything",
            "POST",
            "{\"some\":\"random data\",\"second-key\":\"more data\"}",
            "{\"Authorization\":\"Bearer 123\"}",
        ),
        row("http://httpbin.org/bearer", "GET", "", "{\"Authorization\":\"Bearer 123\"}"),
    ];
    let mut import = CsvImport::new();
    for r in rows {
        let written = import.on_row(Some(r.clone())).unwrap();
        assert_eq!(written.url, r.url);
        assert_eq!(written.method, r.method);
        assert_eq!(written.body, r.body);
        assert_eq!(written.headers, r.headers);
    }
    assert_eq!(import.success, 4);
}

#[test]
fn rows_that_are_passed_over() {
    let mut import = CsvImport::new();
    assert!(import.on_row(None).is_none());
    assert!(import.on_row(Some(row("http://a b", "GET", "", "{}"))).is_none());
    assert_eq!(import.success, 0);
    let fault = |r: HttpReqCsvHelper| r.try_into().unwrap_err();
    assert_eq!(fault(row("http://a b", "G T", "", "x")), RowError::InvalidUrl);
    assert_eq!(fault(row("/a", "G T", "", "x")), RowError::InvalidMethod);
    assert_eq!(fault(row("/a", "", "", "{}")), RowError::InvalidMethod);
    assert_eq!(fault(row("/a", "GET", "", "x")), RowError::InvalidHeaders);
    assert_eq!(fault(row("/a", "GET", "", "[]")), RowError::InvalidHeaders);
    assert_eq!(fault(row("/a", "GET", "", "{\"a\":1}")), RowError::InvalidHeaders);
}

#[test]
fn methods_as_the_http_crate_knows_them() {
    for n in 0..0x180u32 {
        if let Some(c) = char::from_u32(n) {
            let method = format!("GE{}", c);
            let known = http::Method::try_from(method.as_str()).is_ok();
            assert_eq!(row("/a", &method, "", "{}").try_into().is_ok(), known, "{:?}", method);
        }
    }
}

#[test]
fn headers_as_json() {
    let headers = parse_headers("{\"b\":\"2\",\"a\":\"1\",\"b\":\"3\"}").unwrap();
    assert_eq!(headers.len(), 2);
    assert_eq!(headers.get("b"), Some(&"3".to_string()));
    let mut headers: TextMap<String> = TextMap::new();
    headers.insert("x".to_string(), "a\"b".to_string());
    assert_eq!(headers_text(&headers), "{\"x\":\"a\\\"b\"}");
    assert_eq!(parse_headers(&headers_text(&headers)).unwrap().get("x"), headers.get("x"));
}

#[test]
fn requests_from_a_database() {
    let req: HttpReq =
        req_from_row(-5, "POST".to_string(), "/a".to_string(), None, "{\"k\":\"v\"}");
    assert_eq!(req.id, "-5");
    assert_eq!(req.headers.get("k"), Some(&"v".to_string()));
    let req = req_from_row(5, "GET".to_string(), "/a".to_string(), None, "no json");
    assert_eq!(req.id, "5");
    assert!(req.headers.is_empty());
    let req = try_req_from_row(6, "PATCH", "/b".to_string(), Some("x".to_string()), "{}").unwrap();
    assert_eq!((req.id.as_str(), req.method.as_str(), req.url.as_str()), ("6", "PATCH", "/b"));
    assert!(try_req_from_row(6, "NO METHOD", "/b".to_string(), None, "{}").is_none());
}

#[test]
fn answers_to_uploads() {
    let answer = upload_response("f".to_string(), Some(4)).unwrap();
    assert_eq!(answer.data.get("file"), Some(&"f".to_string()));
    assert_eq!(answer.data.get("valid_count"), Some(&"4".to_string()));
    let error = upload_response("f".to_string(), None).unwrap_err();
    assert_eq!(error.message, "Unknown error.");
}

#[test]
fn parts_of_a_file() {
    let mut parts = FileParts::new(10, 25);
    assert_eq!(parts.on_read(8), PartStep::All);
    assert_eq!(parts.on_read(8), PartStep::First(7));
    assert!(parts.is_done());
    let mut short = FileParts::new(0, 5);
    assert_eq!(short.on_read(3), PartStep::All);
    assert_eq!(short.on_read(0), PartStep::End);
    assert_eq!(short.left, 2);
    assert!(needs_room(10, 5, 6));
    assert!(!needs_room(10, 5, 5));
}
