//! Descriptions of tests and the requests that come from them.

use overload::generate::generate_data;
use overload::generator::{ConcurrentConnectionRateSpec, RateSpecEnum};
use overload::http_api::{
    default_generation_mode, ConnectionKeepAlive, LoadGenerationMode, Scheme, Target,
};
use overload::http_req::{try_add_header, HttpReq};
use overload::json::{Json, Number};
use overload::rate_spec::ConstantRate;
use overload::file_path::full_path;
use overload::request::{data_file_path, Request, RequestShadow};
use overload::request_specs::{
    rows_query, JsonTemplateRequest, RandomDataRequest, RequestFile, RequestList, RequestSpecEnum,
    SplitRequestFile, NO_DATA,
};
use overload::schema::{data_schema_from_value, DataSchema};
use overload::text_map::TextMap;
use regex::Regex;
use serde_json::Value;

fn from_value(value: &Value) -> Json {
    match value {
        Value::Null => Json::Null,
        Value::Bool(b) => Json::Bool(*b),
        Value::Number(n) => Json::Number(match (n.as_u64(), n.as_i64()) {
            (Some(u), _) => Number::PosInt(u),
            (None, Some(i)) => Number::NegInt(i),
            (None, None) => Number::Float(n.to_string()),
        }),
        Value::String(s) => Json::String(s.clone()),
        Value::Array(v) => Json::Array(v.iter().map(from_value).collect()),
        Value::Object(m) => {
            Json::Object(m.iter().map(|(k, v)| (k.clone(), from_value(v))).collect())
        }
    }
}

fn json(text: &str) -> Json {
    from_value(&serde_json::from_str(text).unwrap())
}

// ---------------------------------------------------------------------------------------------
// Reading tests
// ---------------------------------------------------------------------------------------------

fn text(value: &Value, name: &str) -> String {
    value.get(name).unwrap().as_str().unwrap().to_string()
}

fn headers(value: &Value) -> TextMap<String> {
    let mut r = TextMap::new();
    if let Some(all) = value.get("headers") {
        for (k, v) in all.as_object().unwrap() {
            r.insert(k.clone(), v.as_str().unwrap().to_string());
        }
    }
    r
}

fn http_req(value: &Value) -> HttpReq {
    HttpReq {
        id: uuid::Uuid::new_v4().to_string(),
        method: text(value, "method"),
        url: text(value, "url"),
        body: value.get("body").map(|b| b.as_str().unwrap().to_string()),
        headers: headers(value),
    }
}

fn random_data_request(value: &Value) -> Result<RandomDataRequest, String> {
    let schema = |name: &str| -> Result<Option<DataSchema>, String> {
        match value.get(name) {
            Some(v) => Ok(Some(DataSchema::try_from(from_value(v)).map_err(|e| e.message())?)),
            None => Ok(None),
        }
    };
    Ok(RandomDataRequest {
        init: false,
        method: text(value, "method"),
        url: text(value, "url"),
        url_param_pos: None,
        headers: headers(value),
        body_schema: schema("bodySchema")?,
        uri_param_schema: schema("uriParamSchema")?,
    })
}

fn request_spec(value: &Value) -> RequestSpecEnum {
    if let Some(list) = value.get("RequestList") {
        let data = list.get("data").unwrap().as_array().unwrap();
        RequestSpecEnum::RequestList(RequestList::from(data.iter().map(http_req).collect()))
    } else {
        let template = value.get("JsonTemplateRequest").unwrap();
        RequestSpecEnum::JsonTemplateRequest(JsonTemplateRequest {
            init: false,
            method: text(template, "method"),
            url: text(template, "url"),
            headers: headers(template),
            body: template.get("body").map(from_value),
        })
    }
}

/// Reads a test, with defaults for what it leaves out.
fn request(document: &str) -> Request {
    let value: Value = serde_json::from_str(document).unwrap();
    let target = value.get("target").unwrap();
    let rate = |v: &Value| ConstantRate {
        count_per_sec: v["ConstantRate"]["countPerSec"].as_u64().unwrap() as u32,
    };
    Request::from(RequestShadow {
        name: Some(text(&value, "name")),
        duration: value.get("duration").unwrap().as_u64().unwrap() as u32,
        target: Target {
            host: text(target, "host"),
            port: target.get("port").unwrap().as_u64().unwrap() as u16,
            protocol: Scheme::HTTP,
        },
        req: request_spec(value.get("req").unwrap()),
        qps: RateSpecEnum::ConstantRate(rate(value.get("qps").unwrap())),
        concurrent_connection: match value.get("concurrentConnection") {
            Some(v) => ConcurrentConnectionRateSpec::ConstantRate(rate(v)),
            None => overload::generator::default_concurrent_connection(),
        },
        connection_keep_alive: ConnectionKeepAlive::default(),
        response_assertion: None,
        generation_mode: match value.get("generationMode") {
            Some(v) if v.get("batch").is_some() => LoadGenerationMode::Batch {
                batch_size: v["batch"]["batchSize"].as_u64().unwrap() as usize,
            },
            _ => default_generation_mode(),
        },
    })
}

fn buckets(document: &str) -> Vec<f64> {
    let value: Value = serde_json::from_str(document).unwrap();
    value["histogramBuckets"].as_array().unwrap().iter().map(|b| b.as_f64().unwrap()).collect()
}

fn only_request(request: &Request) -> &HttpReq {
    match &request.req {
        RequestSpecEnum::RequestList(list) => {
            assert_eq!(list.data.len(), 1);
            &list.data[0]
        }
        other => panic!("unexpected source of requests: {:?}", other),
    }
}

#[test]
fn request_de_serialize_test_1() {
    let req = r#"
            {
              "duration": 1,
              "name": "demo-test",
              "qps": {
                "ConstantRate": {
                  "countPerSec": 1
                }
              },
              "req": {
                "RequestList": {
                  "data": [
                    {
                      "method": "GET",
                      "url": "example.com"
                    }
                  ]
                }
              },
              "target": {
                "host": "example.com",
                "port": 8080,
                "protocol": "HTTP"
              },
              "histogramBuckets": [35,40,45,48,50, 52],
              "generationMode": "immediate"
            }
        "#;
    let request = request(req);
    assert_eq!(buckets(req), vec![35f64, 40f64, 45f64, 48f64, 50f64, 52f64]);
    let only = only_request(&request);
    assert_eq!(only.method, "GET");
    assert_eq!(only.url, "example.com");
    assert_eq!(only.body, None);
    assert!(only.headers.is_empty());
    assert!(matches!(request.generation_mode, LoadGenerationMode::Immediate));
}

#[test]
fn request_de_serialize_test_2() {
    let req = r#"
            {
              "duration": 1,
              "name": "demo-test",
              "qps": {
                "ConstantRate": {
                  "countPerSec": 1
                }
              },
              "req": {
                "RequestList": {
                  "data": [
                    {
                      "method": "GET",
                      "url": "example.com"
                    }
                  ]
                }
              },
              "target": {
                "host": "example.com",
                "port": 8080,
                "protocol": "HTTP"
              },
              "histogramBuckets": [
                35,
                40,
                45,
                48,
                50,
                52
              ],
              "generationMode": {
                "batch": {
                  "batchSize": 10
                }
              }
            }
        "#;
    let request = request(req);
    assert_eq!(buckets(req), vec![35f64, 40f64, 45f64, 48f64, 50f64, 52f64]);
    let only = only_request(&request);
    assert_eq!(only.method, "GET");
    assert_eq!(only.url, "example.com");
    assert_eq!(only.body, None);
    assert!(only.headers.is_empty());
    assert!(matches!(request.generation_mode, LoadGenerationMode::Batch { .. }));
}

#[test]
fn deserialize_str() {
    let req = r#"
            {
              "duration": 1,
              "name": "demo-test",
              "qps": {
                "ConstantRate": {
                  "countPerSec": 1
                }
              },
              "req": {
                "RequestList": {
                  "data": [
                    {
                      "method": "GET",
                      "url": "example.com"
                    }
                  ]
                }
              },
              "target": {
                "host": "example.com",
                "port": 8080,
                "protocol": "HTTP"
              },
              "histogramBuckets": [35,40,45,48,50, 52]
            }
        "#;
    let request = request(req);
    assert_eq!(buckets(req), vec![35f64, 40f64, 45f64, 48f64, 50f64, 52f64]);
    let only = only_request(&request);
    assert_eq!(only.method, "GET");
    assert_eq!(only.url, "example.com");
    assert_eq!(only.body, None);
    assert!(only.headers.is_empty());
}

#[test]
fn deserialize_post_http_req() {
    let req_str = r#"
          {
            "method": "POST",
            "url": "/anything",
            "headers": {
              "Host": "127.0.0.1:2080",
              "Connection":"keep-alive"
            },
            "body": "{\"data\":[{\"shopId\":12345,\"itemId\":54321},{\"shopId\":12345,\"itemId\":54321}]}"
          }"#;
    let req = http_req(&serde_json::from_str(req_str).unwrap());
    assert_eq!(req.method, "POST");
    assert_eq!(req.headers.get("Host"), Some(&"127.0.0.1:2080".to_string()));
}

#[test]
fn test_host_header_update() {
    let req_str = r#"
        {
          "duration": 10,
          "name": "json-template-get.json",
          "qps": {
            "ConstantRate": {
              "countPerSec": 3
            }
          },
          "req": {
            "JsonTemplateRequest": {
              "method": "GET",
              "url": "{{patternStr(\"/anything/[a-z]{4}\")}}",
              "headers": {
                "Connection":"keep-alive"
              }
            }
          },
          "target": {
            "host": "127.0.0.1",
            "port": 2080,
            "protocol": "HTTP"
          },
          "generationMode": {
            "batch": {
              "batchSize": 3
            }
          },
          "concurrentConnection": {
            "ConstantRate": {
              "countPerSec": 3
            }
          }
        }
        "#;
    let req: Request = request(req_str);
    let target_host = req.target.host.clone();
    let req = req.req;
    assert!(matches!(req, RequestSpecEnum::JsonTemplateRequest(_)));
    if let RequestSpecEnum::JsonTemplateRequest(req) = req {
        assert_eq!(req.headers.len(), 2);
        let all: Vec<(&str, &String)> =
            (0..req.headers.len()).map(|i| req.headers.entry(i)).collect();
        assert!(all.iter().any(|(k, v)| http::header::HOST.eq(*k) && v.eq(&&target_host)));
        assert!(all.iter().any(|(k, _)| http::header::HOST.eq(*k)));
    }
}

#[test]
fn test_host_header_no_overwrite() {
    let req_str = r#"
        {
          "duration": 10,
          "name": "json-template-get.json",
          "qps": {
            "ConstantRate": {
              "countPerSec": 3
            }
          },
          "req": {
            "JsonTemplateRequest": {
              "method": "GET",
              "url": "{{patternStr(\"/anything/[a-z]{4}\")}}",
              "headers": {
                "Connection":"keep-alive",
                "host": "localhost"
              }
            }
          },
          "target": {
            "host": "127.0.0.1",
            "port": 2080,
            "protocol": "HTTP"
          },
          "generationMode": {
            "batch": {
              "batchSize": 3
            }
          },
          "concurrentConnection": {
            "ConstantRate": {
              "countPerSec": 3
            }
          }
        }
        "#;
    let req: Request = request(req_str);
    let req = req.req;
    assert!(matches!(req, RequestSpecEnum::JsonTemplateRequest(_)));
    if let RequestSpecEnum::JsonTemplateRequest(req) = req {
        assert_eq!(req.headers.len(), 2);
        let all: Vec<(&str, &String)> =
            (0..req.headers.len()).map(|i| req.headers.entry(i)).collect();
        assert!(all.iter().any(|(k, v)| http::header::HOST.eq(*k) && v.as_str() == "localhost"));
        assert!(all.iter().any(|(k, _)| http::header::HOST.eq(*k)));
    }
}

#[test]
fn lib_test_request_1() {
    let req = r#"
            {
              "duration": 5,
              "name": "demo-test",
              "qps": {
                "ConstantRate": {
                  "countPerSec": 2
                }
              },
              "req": {
                "RequestList": {
                  "data": [
                    {
                      "method": "GET",
                      "url": "example.com"
                    }
                  ]
                }
              },
              "target": {
                "host": "example.com",
                "port": 8080,
                "protocol": "HTTP"
              },
              "histogramBuckets": [35,40,45,48,50, 52]
            }
        "#;
    let (plan, _) = request(req).into_generator("/tmp").unwrap();
    assert_eq!(plan.size_hint(), (0, Some(5)));
}

#[test]
fn request_test_request_1() {
    let req = r#"
            {
              "duration": 5,
              "name": "demo-test",
              "qps": {
                "ConstantRate": {
                  "countPerSec": 2
                }
              },
              "req": {
                "RequestList": {
                  "data": [
                    {
                      "method": "GET",
                      "url": "example.com"
                    }
                  ]
                }
              },
              "target": {
                "host": "example.com",
                "port": 8080,
                "protocol": "HTTP"
              },
              "histogramBuckets": [35,40,45,48,50, 52]
            }
        "#;
    let (mut plan, source) = request(req).into_generator("/tmp").unwrap();
    assert_eq!(plan.poll_next(0, 0), Some((2, 0)));
    assert!(matches!(source, RequestSpecEnum::RequestList(_)));
}

#[test]
fn lib_test_request_2() {
    let req = r#"
            {
              "duration": 5,
              "name": "demo-test",
              "qps": {
                "ConstantRate": {
                  "countPerSec": 2
                }
              },
              "req": {
                "RequestList": {
                  "data": [
                    {
                      "method": "GET",
                      "url": "example.com"
                    }
                  ]
                }
              },
              "target": {
                "host": "example.com",
                "port": 8080,
                "protocol": "HTTP"
              },
              "concurrentConnections": {
                "max":100
              },
              "histogramBuckets": [35,40,45,48,50, 52]
            }
        "#;
    let (plan, _) = request(req).into_generator("/tmp").unwrap();
    assert_eq!(plan.size_hint(), (0, Some(5)));
}

#[test]
fn request_test_request_2() {
    let req = r#"
            {
              "duration": 5,
              "name": "demo-test",
              "qps": {
                "ConstantRate": {
                  "countPerSec": 2
                }
              },
              "req": {
                "RequestList": {
                  "data": [
                    {
                      "method": "GET",
                      "url": "example.com"
                    }
                  ]
                }
              },
              "target": {
                "host": "example.com",
                "port": 8080,
                "protocol": "HTTP"
              },
              "concurrentConnections": {
                "max":100
              },
              "histogramBuckets": [35,40,45,48,50, 52]
            }
        "#;
    let (mut plan, source) = request(req).into_generator("/tmp").unwrap();
    assert_eq!(plan.poll_next(0, 0), Some((2, 0)));
    assert!(matches!(source, RequestSpecEnum::RequestList(_)));
}

#[test]
fn headers_of_listed_requests_stay_as_they_are() {
    let req = request(r#"
            {
              "duration": 1,
              "name": "demo-test",
              "qps": {
                "ConstantRate": {
                  "countPerSec": 1
                }
              },
              "req": {
                "RequestList": {
                  "data": [
                    {
                      "method": "GET",
                      "url": "example.com"
                    }
                  ]
                }
              },
              "target": {
                "host": "example.com",
                "port": 8080,
                "protocol": "HTTP"
              },
              "histogramBuckets": [35,40,45,48,50, 52],
              "generationMode": "immediate"
            }
        "#);
    assert!(only_request(&req).headers.is_empty());
}

// ---------------------------------------------------------------------------------------------
// Lists
// ---------------------------------------------------------------------------------------------

fn req_list_with_n_req(n: usize) -> RequestList {
    let data = (0..n)
        .map(|i| HttpReq {
            id: format!("{}", i),
            body: None,
            url: format!("https://httpbin.org/anything/{}", i),
            method: "GET".to_string(),
            headers: TextMap::new(),
        })
        .collect::<Vec<_>>();
    RequestList { data }
}

#[test]
fn request_providers_request_list_get_n() {
    let request_list = req_list_with_n_req(5);
    let result = request_list.get_n(2).unwrap();
    assert_eq!(2, result.len());
}

#[test]
fn generator_request_list_get_n() {
    let request_list = req_list_with_n_req(5);
    let result = request_list.get_n(2).unwrap();
    assert_eq!(2, result.len());
}

#[test]
fn a_list_gives_its_own_requests() {
    let request_list = req_list_with_n_req(3);
    for req in request_list.get_n(20).unwrap() {
        let i: usize = req.id.parse().unwrap();
        assert_eq!(req.url, request_list.data[i].url);
    }
    let picked = request_list.pick(&vec![2, 0, 2]);
    let ids: Vec<&str> = picked.iter().map(|r| r.id.as_str()).collect();
    assert_eq!(ids, vec!["2", "0", "2"]);
    assert_eq!(request_list.size_hint(), 3);
    assert!(!request_list.shared());
}

#[test]
fn an_empty_list_gives_nothing() {
    assert_eq!(req_list_with_n_req(0).get_n(1).unwrap_err(), NO_DATA);
    assert_eq!(NO_DATA, "No Data Found");
}

// ---------------------------------------------------------------------------------------------
// Files
// ---------------------------------------------------------------------------------------------

#[test]
fn queries_for_rows() {
    assert_eq!(
        rows_query(&vec![3, 1, 20]),
        "SELECT ROWID, * FROM http_req WHERE ROWID IN (3,1,20)"
    );
    let mut file = RequestFile::new("/tmp/a.sqlite".to_string());
    assert_eq!(file.size_hint(), 2147483647);
    assert_eq!(file.database_url(), "sqlite:///tmp/a.sqlite");
    file.opened(4);
    assert!(file.open);
    assert_eq!(file.size_hint(), 4);
    let pattern =
        Regex::new(r"^SELECT ROWID, \* FROM http_req WHERE ROWID IN \([1-4],[1-4],[1-4]\)$").unwrap();
    for _ in 0..20 {
        assert!(pattern.is_match(&file.next_query(3)));
    }
    assert!(file.shared());
    let copy = file.clone();
    assert!(!copy.open);
    assert_eq!(copy.size, 2147483647);
}

#[test]
fn a_file_is_described_by_the_name_that_it_was_given() {
    let path = data_file_path("/data", "abc");
    assert_eq!(path, "/data/abc.sqlite");
    assert_eq!(RequestFile::new(path).described().unwrap().file_name, "abc");
    assert!(RequestFile::new("/data/abc.csv".to_string()).described().is_none());
}

#[test]
fn full_paths_of_request_files() {
    let cases = [
        ("abc", "/data/abc.sqlite"),
        ("abc.csv", "/data/abc.sqlite"),
        ("abc.sqlite", "/data/abc.sqlite"),
        ("a.b.c", "/data/a.b.sqlite"),
        ("/tmp/x", "/tmp/x.sqlite"),
        ("/tmp/x.sqlite", "/tmp/x.sqlite"),
        ("sub/x", "/data/sub/x.sqlite"),
        (".hidden", "/data/.hidden.sqlite"),
        ("x.y/", "/data/x.sqlite"),
        ("x/.", "/data/x.sqlite"),
        ("..", "/data/.."),
        ("", "/data.sqlite"),
        ("/", "/"),
        ("...", "/data/...sqlite"),
        ("a.", "/data/a.sqlite"),
    ];
    for (name, expected) in cases {
        assert_eq!(full_path("/data", name), expected, "{name}");
        let mut path = std::path::PathBuf::from("/data").join(name);
        path.set_extension("sqlite");
        assert_eq!(path.to_str().unwrap(), expected, "{name}");
        // a full path stays
        assert_eq!(full_path("/other", expected), expected, "{name}");
    }
    assert_eq!(full_path("/data/", "x"), "/data/x.sqlite");
    assert_eq!(full_path("", "x"), "x.sqlite");
    assert_eq!(full_path("/data", "abc"), data_file_path("/data", "abc"));
}

#[test]
fn a_received_request_gets_the_full_path_of_its_file() {
    let file = RequestSpecEnum::RequestFile(RequestFile::new("abc".to_string()));
    match file.located("/data") {
        RequestSpecEnum::RequestFile(file) => assert_eq!(file.file_name, "/data/abc.sqlite"),
        other => panic!("unexpected source: {:?}", other),
    }
    let part = RequestSpecEnum::SplitRequestFile(SplitRequestFile {
        file_name: "/tmp/abc.sqlite".to_string(),
        open: false,
        size: 3,
        range_start_inclusive: 1,
        range_end_inclusive: 2,
        next_read_cursor: 1,
    });
    match part.located("/data") {
        RequestSpecEnum::SplitRequestFile(file) => {
            assert_eq!(file.file_name, "/tmp/abc.sqlite");
            assert_eq!(file.range_end_inclusive, 2);
        }
        other => panic!("unexpected source: {:?}", other),
    }
    let list = RequestSpecEnum::RequestList(req_list_with_n_req(2));
    match list.located("/data") {
        RequestSpecEnum::RequestList(list) => assert_eq!(list.data.len(), 2),
        other => panic!("unexpected source: {:?}", other),
    }
}

#[test]
fn a_plan_looks_for_its_file_in_the_data_directory() {
    let mut test = request(r#"
            {
              "duration": 1,
              "name": "demo-test",
              "qps": {
                "ConstantRate": {
                  "countPerSec": 1
                }
              },
              "req": {
                "RequestList": {
                  "data": [
                    {
                      "method": "GET",
                      "url": "example.com"
                    }
                  ]
                }
              },
              "target": {
                "host": "example.com",
                "port": 8080,
                "protocol": "HTTP"
              },
              "histogramBuckets": [35,40,45,48,50, 52],
              "generationMode": "immediate"
            }
        "#);
    test.req = RequestSpecEnum::RequestFile(RequestFile::new("abc".to_string()));
    let (plan, source) = test.clone().into_generator("/data").unwrap();
    assert!(plan.shared_provider());
    match source {
        RequestSpecEnum::RequestFile(file) => assert_eq!(file.file_name, "/data/abc.sqlite"),
        other => panic!("unexpected source: {:?}", other),
    }
    test.req = RequestSpecEnum::SplitRequestFile(SplitRequestFile {
        file_name: "abc".to_string(),
        open: false,
        size: 3,
        range_start_inclusive: 1,
        range_end_inclusive: 2,
        next_read_cursor: 1,
    });
    assert!(test.into_generator("/data").is_none());
}

// ---------------------------------------------------------------------------------------------
// Random data
// ---------------------------------------------------------------------------------------------

const VALID: &str = r#"{"url":"http://localhost:2080/anything/{param1}/{param2}","method":"GET","bodySchema":{"$id":"https://example.com/person.schema.json","$schema":"https://json-schema.org/draft/2020-12/schema","title":"Person","type":"object","properties":{"firstName":{"type":"string","description":"The person's first name."},"lastName":{"type":"string","description":"The person's last name."},"age":{"description":"Age in years which must be equal to or greater than zero.","type":"integer","minimum":1,"maximum":100}}},"uriParamSchema":{"type":"object","properties":{"param1":{"type":"string","description":"The person's first name.","minLength":6,"maxLength":15},"param2":{"description":"Age in years which must be equal to or greater than zero.","type":"integer","minimum":1000000,"maximum":1100000}}}}"#;

#[test]
#[should_panic]
fn request_providers_random_data_generator_json_test_invalid() {
    //bodySchema.properties.age.maximum has invalid int value
    let text = r#"{"url":"http://localhost:2080/anything/{param1}/{param2}","method":"GET","bodySchema":{"$id":"https://example.com/person.schema.json","$schema":"https://json-schema.org/draft/2020-12/schema","title":"Person","type":"object","properties":{"firstName":{"type":"string","description":"The person's first name."},"lastName":{"type":"string","description":"The person's last name."},"age":{"description":"Age in years which must be equal to or greater than zero.","type":"integer","minimum":1,"maximum":"100"}}},"uriParamSchema":{"type":"object","properties":{"param1":{"type":"string","description":"The person's first name.","minLength":6,"maxLength":15},"param2":{"description":"Age in years which must be equal to or greater than zero.","type":"integer","minimum":1000000,"maximum":1100000}}}}"#;
    random_data_request(&serde_json::from_str(text).unwrap()).unwrap();
}

#[test]
#[should_panic]
fn generator_random_data_generator_json_test_invalid() {
    //bodySchema.properties.age.maximum has invalid int value
    let text = r#"{"url":"http://localhost:2080/anything/{param1}/{param2}","method":"GET","bodySchema":{"$id":"https://example.com/person.schema.json","$schema":"https://json-schema.org/draft/2020-12/schema","title":"Person","type":"object","properties":{"firstName":{"type":"string","description":"The person's first name."},"lastName":{"type":"string","description":"The person's last name."},"age":{"description":"Age in years which must be equal to or greater than zero.","type":"integer","minimum":1,"maximum":"100"}}},"uriParamSchema":{"type":"object","properties":{"param1":{"type":"string","description":"The person's first name.","minLength":6,"maxLength":15},"param2":{"description":"Age in years which must be equal to or greater than zero.","type":"integer","minimum":1000000,"maximum":1100000}}}}"#;
    random_data_request(&serde_json::from_str(text).unwrap()).unwrap();
}

#[test]
fn request_providers_random_data_generator_json_test() {
    //valid, will not panic
    random_data_request(&serde_json::from_str(VALID).unwrap()).unwrap();
}

#[test]
fn generator_random_data_generator_json_test() {
    //valid, will not panic
    random_data_request(&serde_json::from_str(VALID).unwrap()).unwrap();
}

fn check_param_positions() {
    let url = String::from("http://localhost:2080/anything/{param1}/{param2}");
    let params = RandomDataRequest::find_param_positions(&url);
    assert_eq!(params.len(), 2);
    for (i, param) in params.iter().enumerate() {
        if i == 0 {
            assert_eq!(param.start, 40);
        } else {
            assert_eq!(param.start, 31);
        }
    }
}

#[test]
fn request_providers_find_param_positions_test() {
    check_param_positions();
}

#[test]
fn generator_find_param_positions_test() {
    check_param_positions();
}

fn check_substitution() {
    let url = String::from("http://localhost:2080/anything/{param1}/{p2}");
    let url_schema = json(r#"{"type":"object","properties":{"param1":{"type":"string","description":"The person's first name.","minLength":1,"maxLength":10},"p2":{"description":"Age in years which must be equal to or greater than zero.","type":"integer","minimum":1,"maximum":1000}}}"#);
    let regex = Regex::new("http://localhost:2080/anything/[a-zA-Z]{1,10}/[0-9]{1,4}").unwrap();
    let schema = data_schema_from_value(&url_schema).unwrap();
    let params = RandomDataRequest::find_param_positions(&url);
    for _ in 0..5 {
        let mut url_ = url.clone();
        let data = generate_data(&schema).0;
        RandomDataRequest::substitute_param_with_data(&mut url_, &params, &data);
        assert!(regex.is_match(&url_));
    }
}

#[test]
fn request_providers_substitution_param_test() {
    check_substitution();
}

#[test]
fn generator_substitution_param_test() {
    check_substitution();
}

fn check_random_data_generator() {
    let body_schema = DataSchema::try_from(json(r#"{"$id":"https://example.com/person.schema.json","$schema":"https://json-schema.org/draft/2020-12/schema","title":"Person","type":"object","properties":{"firstName":{"type":"string","description":"The person's first name."},"lastName":{"type":"string","description":"The person's last name."},"age":{"description":"Age in years which must be equal to or greater than zero.","type":"integer","minimum":0,"maximum":100}}}"#)).unwrap();
    let url_schema = DataSchema::try_from(json(r#"{"type":"object","properties":{"param1":{"type":"string","description":"The person's first name.","minLength":1,"maxLength":5},"p2":{"description":"Age in years which must be equal to or greater than zero.","type":"integer","minimum":0,"maximum":100}}}"#)).unwrap();
    let mut generator = RandomDataRequest {
        init: false,
        method: "POST".to_string(),
        url: "http://example.com/{param1}/{p2}".to_string(),
        url_param_pos: None,
        headers: TextMap::new(),
        body_schema: Some(body_schema),
        uri_param_schema: Some(url_schema),
    };
    let requests = generator.try_get_n(5);
    assert!(requests.is_some());
    for req in requests.unwrap().iter() {
        let result: Value = serde_json::from_str(req.body.as_ref().unwrap()).unwrap();
        let age = result.get("age").unwrap().as_i64().unwrap();
        assert!(age <= 100);
        assert!(age >= 0);
    }

    let body_schema = DataSchema::try_from(json(r#"{"$id":"https://example.com/person.schema.json","$schema":"https://json-schema.org/draft/2020-12/schema","title":"Person","type":"object","properties":{"firstName":{"type":"string","description":"The person's first name."},"lastName":{"type":"string","description":"The person's last name."},"age":{"description":"Age in years which must be equal to or greater than zero.","type":"integer","minimum":0,"maximum":100}}}"#)).unwrap();
    let url_schema = DataSchema::try_from(json(r#"{"type":"object","properties":{"param1":{"type":"string","description":"The person's first name.","minLength":6,"maxLength":15},"p2":{"description":"Age in years which must be equal to or greater than zero.","type":"integer","minimum":1000000,"maximum":1100000}}}"#)).unwrap();
    let mut request = RandomDataRequest {
        init: false,
        method: "POST".to_string(),
        url: "http://example.com/{param1}/{p2}".to_string(),
        url_param_pos: None,
        headers: TextMap::new(),
        body_schema: Some(body_schema),
        uri_param_schema: Some(url_schema),
    };
    let requests = request.get_n(5);
    assert_eq!(requests.len(), 5);
}

#[test]
fn request_providers_random_data_generator() {
    check_random_data_generator();
}

#[test]
fn generator_random_data_generator() {
    check_random_data_generator();
}

#[test]
fn parameters_take_exactly_the_data_under_their_names() {
    let data = json(r#"{"a":"x/y","b":-12,"c":true,"d":"umlaut \u00fc"}"#);
    let fill = |url: &str| {
        let mut url = url.to_string();
        let params = RandomDataRequest::find_param_positions(&url);
        RandomDataRequest::substitute_param_with_data(&mut url, &params, &data);
        url
    };
    assert_eq!(fill("/{a}/{b}/{c}/{d}/{e}"), "/x/y/-12/unknown/umlaut \u{fc}/{e}");
    assert_eq!(fill("/\u{fc}{a}\u{fc}{b}"), "/\u{fc}x/y\u{fc}-12");
    assert_eq!(fill("{}{ a}{{a}}"), "{}{ a}{x/y}");
    assert_eq!(fill("/plain"), "/plain");
}

#[test]
fn parameters_are_listed_from_right_to_left() {
    let params = RandomDataRequest::find_param_positions("{a}-{b_1}{}{c-d}");
    let all: Vec<(&str, usize, usize)> =
        params.iter().map(|p| (p.name.as_str(), p.start, p.end)).collect();
    assert_eq!(all, vec![("c-d", 11, 16), ("b_1", 4, 9), ("a", 0, 3)]);
}

#[test]
fn a_request_with_given_data() {
    let mut random = random_data_request(&serde_json::from_str(VALID).unwrap()).unwrap();
    assert_eq!(random.get_n(1).len(), 1);
    let data = json(r#"{"param1":"abc","param2":7}"#);
    let req = random.request_with(Some(&data), Some(&json(r#"{"x":[1,null]}"#)));
    assert_eq!(req.url, "http://localhost:2080/anything/abc/7");
    assert_eq!(req.body.unwrap(), r#"{"x":[1,null]}"#);
    assert_eq!(req.id, "");
    assert_eq!(random.size_hint(), usize::MAX);
    assert!(random.shared());
}

#[test]
fn a_get_request_has_no_body() {
    let mut random = random_data_request(&serde_json::from_str(VALID).unwrap()).unwrap();
    for req in random.get_n(3) {
        assert_eq!(req.method, "GET");
        assert!(req.body.is_none());
    }
}

#[test]
fn data_that_cannot_be_drawn_is_noticed() {
    let mut random = random_data_request(&serde_json::from_str(VALID).unwrap()).unwrap();
    let text = r#"{"properties":{"param1":{"type":"string","pattern":"a{30,}"}}}"#;
    random.uri_param_schema = Some(DataSchema::try_from(json(text)).unwrap());
    assert!(random.try_get_n(1).is_none());
    assert!(!random.init);
}

// ---------------------------------------------------------------------------------------------
// Headers
// ---------------------------------------------------------------------------------------------

#[test]
fn malformed_headers_are_not_sent() {
    let mut headers: TextMap<String> = TextMap::new();
    assert_eq!(try_add_header(&mut headers, "Content-Type", "a/b"), Some("content-type".into()));
    assert_eq!(try_add_header(&mut headers, "", "x"), None);
    assert_eq!(try_add_header(&mut headers, "a b", "x"), None);
    assert_eq!(try_add_header(&mut headers, "x", "a\nb"), None);
    assert_eq!(try_add_header(&mut headers, "X\"#$%&'", "tab\tand \u{fc}"), Some("x\"#$%&'".into()));
    assert_eq!(headers.len(), 2);
}

#[test]
fn the_last_of_several_headers_counts() {
    let mut all: TextMap<String> = TextMap::new();
    all.insert("Accept".to_string(), "a".to_string());
    all.insert("no good".to_string(), "x".to_string());
    all.insert("ACCEPT".to_string(), "b".to_string());
    let req = HttpReq {
        id: "".to_string(),
        method: "GET".to_string(),
        url: "/".to_string(),
        body: None,
        headers: all,
    };
    let sent = req.sent_headers();
    assert_eq!(sent.len(), 1);
    assert_eq!(sent.get("accept"), Some(&"b".to_string()));
}
