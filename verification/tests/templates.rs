//! Templates and the data that takes the place of their expressions.

use overload::json::{Json, Number};
use overload::pointer::{place, pointer};
use overload::template::{
    find_pattern_and_compile, parse_templates, populate_data, value_of, Template,
};
use overload::template_functions::{
    build_engine, random_int, random_str, random_str_pattern, text_or_note, to_int,
};
use overload::text_map::TextMap;
use regex::Regex;
use rhai::{Dynamic, Engine};
use serde_json::Value;

fn from_value(value: &Value) -> Json {
    match value {
        Value::Null => Json::Null,
        Value::Bool(b) => Json::Bool(*b),
        Value::Number(n) => Json::Number(match (n.as_u64(), n.as_i64()) {
            (Some(u), _) => Number::PosInt(u),
            (None, Some(i)) => Number::NegInt(i),
            (None, None) => Number::Float(n.to_string()),
        }),
        Value::String(s) => Json::String(s.clone()),
        Value::Array(v) => Json::Array(v.iter().map(from_value).collect()),
        Value::Object(m) => {
            Json::Object(m.iter().map(|(k, v)| (k.clone(), from_value(v))).collect())
        }
    }
}

fn json(text: &str) -> Json {
    from_value(&serde_json::from_str(text).unwrap())
}

fn parsed(engine: &Engine, json: &Json) -> TextMap<Template> {
    let mut map = TextMap::new();
    parse_templates(engine, json, "", &mut map);
    map
}

#[test]
fn test_ast_compile() {
    let engine = Engine::new();
    let ast = find_pattern_and_compile("{{random(10, 100)}}", &engine).unwrap();
    assert_eq!(ast.expression(), "random(10, 100)");
    let ast = engine.compile(format!("`{}`", "some error"));
    println!("{:?}", engine.eval_ast::<Dynamic>(&ast.unwrap()));
}

#[test]
fn test_populate_data() {
    let mut engine = build_engine();
    engine.register_fn("randomFloat", |l: f64, h: f64| fastrand_contrib::f64_range(l..h));

    let mut json = json(test_json_template_1());
    let map = parsed(&engine, &json);
    println!("{:?}", &map);
    populate_data(&engine, &mut json, &map);
    println!("{:?}", &json);

    let value = pointer(&json, "/duration").unwrap();
    let value = value.as_i64().unwrap();
    assert!((100..200).contains(&value));

    let value = pointer(&json, "/name").unwrap();
    let value = value.as_str().unwrap();
    let regex = Regex::new("[a-zA-Z0-9_]{4,10}").unwrap();
    assert!(regex.is_match(value));

    let value = pointer(&json, "/qps/ConstantRate/countPerSec").unwrap();
    let value = value.as_i64().unwrap();
    assert!((10000..=19999).contains(&value));

    let value = pointer(&json, "/req/RequestList/data/0/sendHeader").unwrap();
    assert!(matches!(value, Json::Bool(_)));

    let value = pointer(&json, "/target/host").unwrap();
    let value = value.as_str().unwrap();
    let regex = Regex::new("[a-zA-Z]{5,10}").unwrap();
    assert!(regex.is_match(value));

    let value = pointer(&json, "/histogramBuckets/2").unwrap();
    let value = value.as_i64().unwrap();
    assert!((50..60).contains(&value));

    let value = pointer(&json, "/histogramBuckets/3").unwrap();
    let value = value.as_i64().unwrap();
    assert!((70..90).contains(&value));

    let value = pointer(&json, "/histogramBuckets/5").unwrap();
    let value = value.as_i64().unwrap();
    assert!((150..180).contains(&value));

    let value = pointer(&json, "/generation_mode/batch/batchSize").unwrap();
    let value = match value {
        Json::Number(Number::Float(text)) => text.parse::<f64>().unwrap(),
        other => panic!("unexpected value: {:?}", other),
    };
    assert!((10.4..20.5).contains(&value));
}

fn test_json_template_1() -> &'static str {
    r#"
        {
          "duration": "{{randomInt(100, 200)}}",
          "name": "demo-test-{{randomStrWithPattern(\"[a-zA-Z0-9_]{4,10}\")}}",
          "qps": {
            "ConstantRate": {
              "countPerSec": "{{toInt(randomStrWithPattern(\"1[0-9]{4}\"))}}"
            }
          },
          "req": {
            "RequestList": {
              "data": [
                {
                  "method": "GET",
                  "url": "example.com",
                  "sendHeader": "{{randomBool()}}"
                }
              ]
            }
          },
          "target": {
            "host": "{{randomStr(5,10)}}.com",
            "port": 8080,
            "protocol": "HTTP"
          },
          "histogramBuckets": [
            35,
            40,
            "{{randomInt(50, 60)}}",
            "{{randomInt(70, 90)}}",
            120,
            "{{randomInt(150, 180)}}"
          ],
          "generation_mode": {
            "batch": {
              "batchSize": "{{randomFloat(10.4, 20.5)}}"
            }
          }
        }
    "#
}

#[test]
fn test_eval_2() {
    let engine = build_engine();

    let mut json = json(test_parse_template_2_json());
    let map = parsed(&engine, &json);
    println!("{:?}", &map);
    populate_data(&engine, &mut json, &map);
    println!("{:?}", &json);

    let value = pointer(&json, "/qps/ConstantRate/countPerSec").unwrap();
    let value = value.as_i64().unwrap();
    assert!((150..200).contains(&value));

    let value = pointer(&json, "/duration").unwrap();
    let value = value.as_i64().unwrap();
    assert!((100..200).contains(&value));
}

#[test]
fn test_eval_3() {
    let mut engine = Engine::new();
    fn random_number(l: i64, h: i64) -> i64 {
        fastrand::i64(l..h)
    }

    fn to_str<T: ToString>(val: T) -> String {
        val.to_string()
    }
    engine.register_fn("toString", to_str::<i64>);
    engine.register_fn("randomInt", random_number);
    let json = json(test_parse_template_3_json());
    let map = parsed(&engine, &json);

    for i in 0..map.len() {
        let (path, template) = map.entry(i);
        let ast = template.program().unwrap();
        let value = engine.eval_ast::<Dynamic>(ast).unwrap();
        if path.eq_ignore_ascii_case("/name") {
            println!("{path}: {:?}", &value);
            assert!(value.is_string());
        }
    }
    println!("{:?}", &map);
}

#[test]
fn test_parse_template_3() {
    let engine = Engine::new();
    let map = parsed(&engine, &json(test_parse_template_3_json()));
    println!("{:?}", &map);
    assert_eq!(map.len(), 2);
    assert!(map.get("/name").unwrap().program().is_ok());
    assert!(map.get("/qps/ConstantRate/countPerSec").unwrap().program().is_ok());
}

fn test_parse_template_3_json() -> &'static str {
    r#"
        {
          "duration": 123,
          "name": "{{toString(randomInt(150, 200))}}",
          "qps": {
            "ConstantRate": {
              "countPerSec": "{{randomInt(150, 200)}}"
            }
          }
        }
    "#
}

#[test]
fn test_parse_template_2() {
    let engine = Engine::new();
    let map = parsed(&engine, &json(test_parse_template_2_json()));
    println!("{:?}", &map);
    assert_eq!(map.len(), 2);
    assert!(map.get("/duration").unwrap().program().is_ok());
    assert!(map.get("/qps/ConstantRate/countPerSec").unwrap().program().is_ok());
}

fn test_parse_template_2_json() -> &'static str {
    r#"
        {
          "duration": "{{randomInt(100, 200)}}",
          "name": "demo-test",
          "qps": {
            "ConstantRate": {
              "countPerSec": "{{randomInt(150, 200)}}"
            }
          }
        }
    "#
}

#[test]
fn test_parse_template_1() {
    let engine = Engine::new();
    let map = parsed(&engine, &json(test_parse_template_1_json()));
    assert_eq!(map.len(), 1);
    assert!(map.get("/duration").unwrap().program().is_ok());
}

fn test_parse_template_1_json() -> &'static str {
    r#"
        {
          "duration": "{{randomInt(100, 200)}}"
        }
    "#
}

#[test]
fn test_dynamic_to_json() {
    let engine = build_engine();
    let mut document = json(r#"{"a":"{{10}}"}"#);
    let map = parsed(&engine, &document);
    populate_data(&engine, &mut document, &map);
    assert_eq!(document, json(r#"{"a":10}"#));
    let dynamic = Dynamic::from_int(10);
    assert_eq!(serde_json::to_value(dynamic).unwrap(), Value::from(10));
}

#[test]
fn the_first_expression_counts() {
    let engine = Engine::new();
    let found = |text: &str| find_pattern_and_compile(text, &engine).map(|t| t.expression().to_string());
    assert_eq!(found("a{{1}}b{{2}}"), Some("1".to_string()));
    assert_eq!(found("{{{a}}"), Some("{a".to_string()));
    assert_eq!(found("{{}}}"), Some("}".to_string()));
    assert_eq!(found("{{}} {{x}}"), Some("}} {{x".to_string()));
    assert_eq!(found("{{}}"), None);
    assert_eq!(found("{{a\nb}}"), None);
    assert_eq!(found("{{a\n}} {{c}}"), Some("c".to_string()));
    assert_eq!(found("plain"), None);
}

#[test]
fn an_error_takes_the_place_of_its_expression() {
    let engine = build_engine();
    let mut document = json(r#"{"a":["{{1 +}}", "{{randomInt(5, 5)}}"],"b":"x"}"#);
    let map = parsed(&engine, &document);
    let message = map.get("/a/0").unwrap().program().unwrap_err().to_string();
    populate_data(&engine, &mut document, &map);
    assert_eq!(pointer(&document, "/a/0").unwrap().as_str(), Some(message.as_str()));
    assert!(pointer(&document, "/a/1").unwrap().as_str().unwrap().contains("empty range"));
    assert_eq!(pointer(&document, "/b").unwrap().as_str(), Some("x"));
    assert_eq!(value_of(Err("no".to_string())), Json::text("no"));
    assert_eq!(value_of(Ok(json("1"))), json("1"));
}

#[test]
fn paths_into_a_document() {
    let mut document = json(r#"{"a/b":{"m~n":[10,20]},"":{"x":1}}"#);
    assert_eq!(pointer(&document, "/a~1b/m~0n/1"), Some(&json("20")));
    assert_eq!(pointer(&document, "//x"), Some(&json("1")));
    assert_eq!(pointer(&document, ""), Some(&document));
    assert_eq!(pointer(&document, "x"), None);
    assert_eq!(pointer(&document, "/a~1b/m~0n/01"), None);
    assert_eq!(pointer(&document, "/a~1b/m~0n/+1"), None);
    assert_eq!(pointer(&document, "/a~1b/m~0n/2"), None);
    place(&mut document, "/a~1b/m~0n/0", json("null"));
    place(&mut document, "/none", json("5"));
    assert_eq!(document, json(r#"{"a/b":{"m~n":[null,20]},"":{"x":1}}"#));
}

#[test]
fn paths_agree_with_json_pointers() {
    let text = r#"{"a/b":{"m~n":[10,{"k":[]}]},"":{"x":1},"~1":2,"~~01":3}"#;
    let value: Value = serde_json::from_str(text).unwrap();
    for path in ["", "/", "//x", "/a~1b", "/a~1b/m~0n/0", "/a~1b/m~0n/1/k", "/~01", "/~0~001",
        "/a~1b/m~0n/00", "/a~1b/m~0n/-", "/~~01", "a", "/a/b"]
    {
        let expected = value.pointer(path).map(from_value);
        assert_eq!(pointer(&json(text), path), expected.as_ref(), "{}", path);
    }
}

#[test]
fn functions_are_known_by_their_names() {
    let engine = build_engine();
    let value = |expression: &str| {
        let mut document = Json::Array(vec![Json::String(format!("{{{{{expression}}}}}"))]);
        let found = parsed(&engine, &document);
        assert_eq!(found.len(), 1);
        populate_data(&engine, &mut document, &found);
        pointer(&document, "/0").unwrap().clone()
    };
    for _ in 0..10 {
        match value("randomInt(3, 6)") {
            Json::Number(Number::PosInt(n)) => assert!((3..6).contains(&n)),
            other => panic!("unexpected value: {:?}", other),
        }
        assert!(matches!(value("randomBool()"), Json::Bool(_)));
        match value("randomStr(2, 4)") {
            Json::String(text) => {
                assert!((2..=4).contains(&text.len()));
                assert!(text.chars().all(|c| c.is_ascii_alphabetic()));
            }
            other => panic!("unexpected value: {:?}", other),
        }
        match value(r#"randomStrWithPattern("^[0-9]{3}$")"#) {
            Json::String(text) => assert!(Regex::new("^[0-9]{3}$").unwrap().is_match(&text)),
            other => panic!("unexpected value: {:?}", other),
        }
    }
    assert_eq!(value("toStr(-15)"), Json::String("-15".to_string()));
    assert_eq!(value("toStr(true)"), Json::String("true".to_string()));
    assert_eq!(value("toStr(false)"), Json::String("false".to_string()));
    assert_eq!(value(r#"toStr("x")"#), Json::String("x".to_string()));
    assert_eq!(value("toStr([1, 2])"), Json::String("[1, 2]".to_string()));
    assert_eq!(value(r#"toInt("17")"#), json("17"));
    assert_eq!(value("toInt(18)"), json("18"));
    // an error stands where the value would
    assert!(matches!(value("nothing(1)"), Json::String(text) if text.contains("nothing")));
    assert!(matches!(value("1 +"), Json::String(_)));
}

#[test]
fn templates_are_compiled_by_the_engine_at_hand() {
    let mut engine = Engine::new();
    let text = r#"{"a":"{{while true { break }; 7}}"}"#;
    let found = parsed(&engine, &json(text));
    assert!(found.get("/a").unwrap().program().is_ok());
    engine.disable_symbol("while");
    let found = parsed(&engine, &json(text));
    let fault = found.get("/a").unwrap().program().unwrap_err().to_string();
    let mut document = json(text);
    populate_data(&Engine::new(), &mut document, &found);
    assert_eq!(pointer(&document, "/a"), Some(&Json::String(fault)));
}

#[test]
fn text_for_patterns_matches_them() {
    let patterns = [
        "^a[0-9]{4}z$",
        "^(ab|cd)+x?$",
        "^[^a]{2}$",
        "^\\d{2,3}-\\w$",
        "^(one|two|three)$",
        "^[a-cx-z]{5}$",
        "^\u{e4}[\u{f6}\u{fc}]{3}$",
        "^.{3}$",
        "^a*b{0,2}$",
        "^$",
    ];
    for text in patterns {
        let pattern = Regex::new(text).unwrap();
        for _ in 0..20 {
            let drawn = random_str_pattern(text).unwrap();
            assert!(pattern.is_match(drawn.trim_end_matches('\n')), "{text}: {drawn:?}");
        }
    }
}

#[test]
fn functions_of_templates() {
    for _ in 0..20 {
        assert!((3..6).contains(&random_int(3, 6).unwrap()));
        let text = random_str(2, 4);
        assert!((2..=4).contains(&text.len()));
        assert!(text.chars().all(|c| c.is_ascii_alphabetic()));
        assert_eq!(random_str(-3, 0).len(), 1);
        assert_eq!(random_str(5, 2).len(), 5);
    }
    assert_eq!(random_int(6, 6).unwrap_err(), "empty range");
    let pattern = Regex::new("^a[0-9]{4}z$").unwrap();
    assert!(pattern.is_match(&random_str_pattern("^a[0-9]{4}z$").unwrap()));
    assert_eq!(random_str_pattern("a[").unwrap(), "could not parse expression");
    assert_eq!(random_str_pattern("a{200,}").unwrap_err(), "too many repetitions");
    assert!(random_str_pattern("a{20,}").unwrap().len() >= 20);
    // what is repeated zero times is not drawn
    assert_eq!(random_str_pattern("(a{200,}){0}").unwrap(), "");
    assert_eq!(random_str_pattern("x(a{200,})??").unwrap(), "x");
    assert_eq!(random_str_pattern("(a{200,}){0,1}").unwrap_err(), "too many repetitions");
    assert_eq!(text_or_note(Some("x".to_string())), "x");
    assert_eq!(to_int("-12").unwrap(), -12);
    assert_eq!(to_int("1x").unwrap_err(), "1x".parse::<i64>().unwrap_err().to_string());
    assert_eq!(to_int("").unwrap_err(), "".parse::<i64>().unwrap_err().to_string());
}

#[test]
fn conversions_in_templates() {
    let engine = build_engine();
    let mut document = json(
        r#"{"a":"{{toStr(12)}}","b":"{{toInt(\"7\")}}","c":"{{toInt(\"x\")}}","d":"{{toStr(true)}}"}"#,
    );
    let map = parsed(&engine, &document);
    populate_data(&engine, &mut document, &map);
    let note = "x".parse::<i64>().unwrap_err().to_string();
    assert_eq!(pointer(&document, "/a"), Some(&Json::text("12")));
    assert_eq!(pointer(&document, "/b"), Some(&json("7")));
    assert_eq!(pointer(&document, "/c"), Some(&Json::text(&note)));
    assert_eq!(pointer(&document, "/d"), Some(&Json::text("true")));
}

#[test]
fn functions_of_an_engine() {
    let engine = build_engine();
    assert_eq!(engine.max_strings_interned(), 1024);
    assert!((3..5).contains(&engine.eval::<i64>("randomInt(3, 5)").unwrap()));
    assert!(engine.eval::<bool>("randomBool()").is_ok());
    assert_eq!(engine.eval::<String>("randomStr(4, 4)").unwrap().len(), 4);
    assert_eq!(engine.eval::<String>("randomStrWithPattern(\"ab\")").unwrap(), "ab");
    assert_eq!(engine.eval::<String>("toStr(12)").unwrap(), "12");
    assert_eq!(engine.eval::<String>("toStr(true)").unwrap(), "true");
    assert_eq!(engine.eval::<String>("toStr(\"x\")").unwrap(), "x");
    assert_eq!(engine.eval::<String>("toStr('y')").unwrap(), "y");
    assert_eq!(engine.eval::<i64>("toInt(\"17\")").unwrap(), 17);
    assert_eq!(engine.eval::<i64>("toInt(17)").unwrap(), 17);
    // no function of this name, none with these parameters
    assert!(engine.eval::<i64>("randomInteger(3, 5)").is_err());
    assert!(engine.eval::<i64>("randomInt(3)").is_err());
}
