//! Data schemas, and data drawn for them.

use overload::external_data::ExternalData;
use overload::generate::{can_generate_data, generate_data, generate_data_with_external_data, integer_or_zero, try_generate_data};
use overload::json::{Json, Number};
use overload::keywords::{Constraints, Keywords};
use overload::schema::{data_schema_from_value, data_value_from_schema, DataSchema, KEY_FOR_KEYLESS_SCHEMAS};
use regex::Regex;
use serde_json::Value;
use std::str::FromStr;

fn from_value(value: &Value) -> Json {
    match value {
        Value::Null => Json::Null,
        Value::Bool(b) => Json::Bool(*b),
        Value::Number(n) => Json::Number(match (n.as_u64(), n.as_i64()) {
            (Some(u), _) => Number::PosInt(u),
            (None, Some(i)) => Number::NegInt(i),
            (None, None) => Number::Float(n.to_string()),
        }),
        Value::String(s) => Json::String(s.clone()),
        Value::Array(v) => Json::Array(v.iter().map(from_value).collect()),
        Value::Object(m) => {
            Json::Object(m.iter().map(|(k, v)| (k.clone(), from_value(v))).collect())
        }
    }
}

fn to_value(json: &Json) -> Value {
    match json {
        Json::Null => Value::Null,
        Json::Bool(b) => Value::Bool(*b),
        Json::Number(Number::PosInt(n)) => Value::from(*n),
        Json::Number(Number::NegInt(n)) => Value::from(*n),
        Json::Number(Number::Float(t)) => serde_json::from_str(t).unwrap(),
        Json::String(s) => Value::String(s.clone()),
        Json::Array(v) => Value::Array(v.iter().map(to_value).collect()),
        Json::Object(e) => {
            Value::Object(e.iter().map(|(k, v)| (k.clone(), to_value(v))).collect())
        }
    }
}

fn json(text: &str) -> Json {
    from_value(&serde_json::from_str(text).unwrap())
}

fn validate_json_path<'a>(path: &str, json: &'a Value, expected: Option<&Value>) -> Vec<&'a Value> {
    let mut selector = jsonpath_lib::selector(json);
    let result = selector(path);
    assert!(result.is_ok());
    let result = result.unwrap();
    if let Some(expected) = expected {
        assert_eq!(*result.first().unwrap(), expected);
    }
    result
}

/// Whether every member and item of `expected` is in `actual`.
fn includes(actual: &Value, expected: &Value) -> bool {
    match (actual, expected) {
        (Value::Object(a), Value::Object(e)) => {
            e.iter().all(|(k, v)| a.get(k).map_or(false, |x| includes(x, v)))
        }
        (Value::Array(a), Value::Array(e)) => {
            e.iter().enumerate().all(|(i, v)| a.get(i).map_or(false, |x| includes(x, v)))
        }
        (a, e) => a == e,
    }
}

fn const_obj_data_gen_schema() -> &'static str {
    r#"
    {
      "properties": {
        "constObject": {
          "type": "object",
          "constant": {
            "key1": "val1",
            "properties": {
              "comment": "this will be parsed as json instead of schema"
            },
            "keyInt": 1234
          }
        }
      }
    }
    "#
}

fn const_obj_data_gen_with_other_obj_property_schema() -> &'static str {
    r#"
    {
      "properties": {
        "key1": {
          "type": "string",
          "constant": "value1"
        },
        "nested": {
          "type": "object",
          "properties": {
            "objKey1": {
              "type": "integer",
              "minimum": 10,
              "maximum": 1000
            },
            "objKey2": {
              "type": "string",
              "pattern": "^a[0-9]{4}z$"
            }
          }
        },
        "constObject": {
          "type": "object",
          "constant": {
            "key1": "val1",
            "properties": {
              "comment": "this will be parsed as json instead of schema"
            },
            "keyInt": 1234
          }
        }
      }
    }
    "#
}

fn integer_pattern_data_gen_schema() -> &'static str {
    r#"
    {
      "properties": {
        "key1": {
          "type": "string",
          "constant": "value1"
        },
        "nested": {
          "type": "object",
          "properties": {
            "objKey1": {
              "type": "integer",
              "pattern": "^1[0-9]{4}$"
            },
            "objKey2": {
              "type": "string",
              "pattern": "^a[0-9]{4}z$"
            }
          }
        }
      }
    }
    "#
}

fn array_sample_json_3() -> &'static str {
    r#"
    {
      "properties": {
        "firstName": {
          "type": "string"
        },
        "lastName": {
          "type": "string",
            "pattern": "^a[0-9]{4}z$"
        },
        "age": {
          "type": "integer",
          "minimum": 10,
          "maximum": 20
        },
        "objArrayKeys": {
          "type": "array",
          "maxLength": 20,
          "minLength": 10,
          "items": {
            "type": "object",
            "properties": {
              "objKey1": {
                "type": "integer",
                "minimum": 10,
                "maximum": 1000
              },
              "objKey2": {
                "type": "string",
                "pattern": "^a[0-9]{4}z$"
              }
            }
          }
        },
        "scalarArray": {
          "type": "array",
          "maxLength": 20,
          "minLength": 20,
          "items": {
            "type": "string",
            "pattern": "^a[0-9]{4}z$"
          }
        }
      }
    }
    "#
}

fn array_sample_json_2() -> &'static str {
    r#"
    {
      "properties":{
        "keys": {
          "type": "array",
          "items": {
            "type": "object",
            "properties": {
              "key1": {
                "type": "integer",
                "minimum": 1,
                "maximum": 100
              },
              "key2": {
                "type": "string",
                "pattern":"^1[0-9]{6}$"
              }
            }
          },
          "maxLength": 10,
          "minLength": 2
        }
      }
    }
    "#
}

fn array_sample_json_1() -> &'static str {
    r#"
    {
      "properties":{
        "keys": {
          "type": "array",
          "items": {
            "type": "integer",
            "minimum": 1,
            "maximum": 100
          },
          "maxLength": 10,
          "minLength": 2
        }
      }
    }
    "#
}

fn with_all_feature_sample_schema() -> &'static str {
    r#"
    {
      "properties": {
        "key1": {
          "type": "string",
          "constant": "value1"
        },
        "nested": {
          "type": "object",
          "properties": {
            "objKey1": {
              "type": "integer",
              "minimum": 10,
              "maximum": 1000
            },
            "objKey2": {
              "type": "string",
              "pattern": "^a[0-9]{4}z$"
            }
          }
        },
        "constObject": {
          "type": "object",
          "constant": {
            "key1": "val1",
            "properties": {
              "comment": "this will be parsed as json instead of schema"
            },
            "keyInt": 1234
          }
        }
      }
    }
    "#
}

#[test]
fn json_schema_to_data_schema_and_back() {
    let schemas = vec![
        const_obj_data_gen_schema as fn() -> &'static str,
        const_obj_data_gen_with_other_obj_property_schema,
        integer_pattern_data_gen_schema,
        array_sample_json_3,
        array_sample_json_2,
        array_sample_json_1,
        with_all_feature_sample_schema,
    ];
    for schema in schemas {
        let json_schema = schema();
        let original_json_schema: Value = serde_json::from_str(json_schema).unwrap();
        let data_schema = data_schema_from_value(&from_value(&original_json_schema)).unwrap();
        let converted_json_schema = to_value(&data_value_from_schema(&data_schema));
        assert_eq!(converted_json_schema, original_json_schema);
    }
}

#[test]
fn integer_pattern_data_gen() {
    let data_schema = data_schema_from_value(&json(integer_pattern_data_gen_schema())).unwrap();
    let data = to_value(&generate_data(&data_schema).0);
    let val = validate_json_path("$.nested.objKey1", &data, None);
    println!("[integer_pattern_data_gen] - val: {:?}", val);
    assert_ne!(val.first().unwrap().as_i64().unwrap(), 0)
}

#[test]
fn const_obj_data_gen() {
    let data_schema = data_schema_from_value(&json(const_obj_data_gen_schema())).unwrap();
    let data = to_value(&generate_data(&data_schema).0);
    validate_json_path(
        "$.constObject.properties.comment",
        &data,
        Some(&Value::from("this will be parsed as json instead of schema")),
    );
}

#[test]
fn const_obj_data_gen_with_other_obj_property() {
    let data_schema =
        data_schema_from_value(&json(const_obj_data_gen_with_other_obj_property_schema())).unwrap();
    let data = to_value(&generate_data(&data_schema).0);
    validate_json_path("$.key1", &data, Some(&Value::from("value1")));
    validate_json_path("$.nested.objKey1", &data, None);
    validate_json_path("$.constObject.keyInt", &data, Some(&Value::from(1234)));
}

#[test]
fn array_json_to_schema() {
    let schema = DataSchema::try_from(json(array_sample_json_1())).unwrap();
    match schema {
        DataSchema::Object(_, values) => {
            assert_eq!(values.len(), 1);
            let array = values.first().unwrap();
            match array {
                DataSchema::Array(k, values, c) => {
                    assert_eq!(k, &Some("keys".to_string()));
                    assert_eq!(values.len(), 1);
                    let elements = values.first().unwrap();
                    assert!(matches!(elements, DataSchema::Integer(_, _)));
                    assert_eq!(c.get(&Keywords::MinLength).unwrap(), &Constraints::MinLength(2));
                    assert_eq!(c.get(&Keywords::MaxLength).unwrap(), &Constraints::MaxLength(10));
                }
                _ => panic!("expected array, got: {:?}", array),
            }
        }
        _ => panic!("expected object, got: {:?}", schema),
    }
}

#[test]
fn array_schema_to_value() {
    let original_schema: Value = serde_json::from_str(array_sample_json_1()).unwrap();
    let schema = DataSchema::try_from(from_value(&original_schema)).unwrap();
    let value = to_value(&schema.into_value());
    assert_eq!(value, original_schema);
}

#[test]
fn array_schema_to_value_string_pattern() {
    let original_schema: Value = serde_json::from_str(array_sample_json_3()).unwrap();
    let schema = DataSchema::try_from(from_value(&original_schema)).unwrap();
    let value = to_value(&schema.into_value());
    println!("schema to value: {}", serde_json::to_string(&value).unwrap());
    assert_eq!(value, original_schema);
}

#[test]
fn array_schema_data_gen_integer() {
    let schema = DataSchema::try_from(json(array_sample_json_1())).unwrap();
    let value = generate_data(&schema).0;
    assert!(matches!(value, Json::Object(_)));
    let array = value.get("keys").unwrap();
    assert!(matches!(array, &Json::Array(_)));
    let array = array.as_array().unwrap();
    assert!((2..=10usize).contains(&array.len()));
    let arr_val_range = 1..=100i64;
    for elm in array {
        assert!(arr_val_range.contains(&elm.as_i64().unwrap()));
    }
}

#[test]
fn array_schema_data_gen_object() {
    let schema = DataSchema::try_from(json(array_sample_json_2())).unwrap();
    let value = generate_data(&schema).0;
    assert!(matches!(value, Json::Object(_)));
    let array = value.get("keys").unwrap();
    assert!(matches!(array, &Json::Array(_)));
    let array = array.as_array().unwrap();
    assert!((2..=10usize).contains(&array.len()));

    let key1_val_range = 1..=100i64;
    for elm in array {
        assert!(key1_val_range.contains(&elm.get("key1").unwrap().as_i64().unwrap()));
        let key2 = i64::from_str(elm.get("key2").unwrap().as_str().unwrap()).unwrap();
        assert!(key2 > 1);
        assert!(key2 < (1999999 - 1))
    }
}

#[test]
fn array_schema_data_gen_string_pattern() {
    let schema = DataSchema::try_from(json(array_sample_json_3())).unwrap();
    let value = generate_data(&schema).0;
    assert!(matches!(value, Json::Object(_)));
    let array = value.get("objArrayKeys").unwrap();
    assert!(matches!(array, &Json::Array(_)));

    let key1_val_range = 10..=1000i64;
    let regex = Regex::new("^a[0-9]{4}z$").unwrap();
    for elm in array.as_array().unwrap() {
        assert!(key1_val_range.contains(&elm.get("objKey1").unwrap().as_i64().unwrap()));
        let key2 = elm.get("objKey2").unwrap().as_str().unwrap();
        assert!(regex.is_match(key2));
    }

    let array = value.get("scalarArray").unwrap();
    assert!(matches!(array, &Json::Array(_)));
    let array = array.as_array().unwrap();
    assert_eq!(array.len(), 20);
    for elm in array {
        let key = elm.as_str().unwrap();
        assert!(regex.is_match(key));
    }
}

#[test]
fn failure_test_min_max_range() {
    let data = r#"
    {
      "type": "object",
      "properties": {
        "keys": {
          "type": "array",
          "maxLength": 3,
          "minLength": 2,
          "items": {
            "type": "object",
            "properties": {
              "key1": {
                "type": "integer",
                "minimum": 300000,
                "maximum": 200000
              },
              "key2": {
                "type": "string",
                "pattern": "^a[0-9]{4}z$"
              }
            }
          }
        }
      }
    }
    "#;
    let schema = DataSchema::try_from(json(data));
    assert!(schema.is_err());
    assert!(schema
        .err()
        .unwrap()
        .message()
        .contains("minimum > maximum"));
}

#[test]
fn failure_test_min_max_length() {
    let data = r#"
    {
      "type": "object",
      "properties": {
        "keys": {
          "type": "array",
          "maxLength": 1,
          "minLength": 2,
          "items": {
            "type": "object",
            "properties": {
              "key1": {
                "type": "integer",
                "minimum": 100000,
                "maximum": 200000
              },
              "key2": {
                "type": "string",
                "pattern": "^a[0-9]{4}z$"
              }
            }
          }
        }
      }
    }
    "#;
    let schema = DataSchema::try_from(json(data));
    assert!(schema.is_err());
    assert!(schema
        .err()
        .unwrap()
        .message()
        .contains("minLength > maxLength"));
}

#[test]
fn failure_test_min_missing_range() {
    let data = r#"
    {
      "type": "object",
      "properties": {
        "keys": {
          "type": "array",
          "maxLength": 3,
          "minLength": 2,
          "items": {
            "type": "object",
            "properties": {
              "key1": {
                "type": "integer",
                "maximum": 200000
              },
              "key2": {
                "type": "string",
                "pattern": "^a[0-9]{4}z$"
              }
            }
          }
        }
      }
    }
    "#;
    let schema = DataSchema::try_from(json(data));
    assert!(schema.is_err());
    assert!(schema
        .err()
        .unwrap()
        .message()
        .contains("requires both minimum & maximum"));
}

#[test]
fn failure_test_max_missing_range() {
    let data = r#"
    {
      "type": "object",
      "properties": {
        "keys": {
          "type": "array",
          "maxLength": 3,
          "minLength": 2,
          "items": {
            "type": "object",
            "properties": {
              "key1": {
                "type": "integer",
                "minimum": 200000
              },
              "key2": {
                "type": "string",
                "pattern": "^a[0-9]{4}z$"
              }
            }
          }
        }
      }
    }
    "#;
    let schema = DataSchema::try_from(json(data));
    assert!(schema.is_err());
    assert!(schema
        .err()
        .unwrap()
        .message()
        .contains("requires both minimum & maximum"));
}

#[test]
fn failure_test_max_missing_length() {
    let data = r#"
    {
      "type": "object",
      "properties": {
        "keys": {
          "type": "array",
          "minLength": 2,
          "items": {
            "type": "object",
            "properties": {
              "key1": {
                "type": "integer",
                "maximum": 200000,
                "minimum": 200000
              },
              "key2": {
                "type": "string",
                "pattern": "^a[0-9]{4}z$"
              }
            }
          }
        }
      }
    }
    "#;
    let schema = DataSchema::try_from(json(data));
    assert!(schema.is_err());
    assert!(schema
        .err()
        .unwrap()
        .message()
        .contains("requires both minLength & maxLength"));
}

#[test]
fn failure_test_min_missing_length() {
    let data = r#"
    {
      "type": "object",
      "properties": {
        "keys": {
          "type": "array",
          "maxLength": 2,
          "items": {
            "type": "object",
            "properties": {
              "key1": {
                "type": "integer",
                "maximum": 200000,
                "minimum": 200000
              },
              "key2": {
                "type": "string",
                "pattern": "^a[0-9]{4}z$"
              }
            }
          }
        }
      }
    }
    "#;
    let schema = DataSchema::try_from(json(data));
    assert!(schema.is_err());
    assert!(schema
        .err()
        .unwrap()
        .message()
        .contains("requires both minLength & maxLength"));
}

#[test]
fn test() {
    let data = r#"{
        "properties": {
        "firstName": {
          "type": "string",
          "description": "The person's first name."
        },
        "lastName": {
          "type": "string",
          "description": "The person's last name."
        },
        "age": {
          "description": "Age in years which must be equal to or greater than zero.",
          "type": "integer",
          "minimum": 10,
          "maximum": 20
        },
        "objArrayKeys": {
          "type": "array",
          "maxLength": 20,
          "minLength": 10,
          "items": {
            "type": "object",
            "properties": {
              "objKey1": {
                "type": "integer",
                "dataFile": 1
              },
              "objKey2": {
                "type": "string",
                "pattern": "^a[0-9]{4}z$"
              },
              "objKey3": {
                "type": "string",
                "dataFile": 2
              }
            }
          }
        },
        "scalarArray": {
          "type": "array",
          "maxLength": 20,
          "minLength": 20,
          "items": {
            "type": "string",
            "pattern": "^a[0-9]{4}z$"
          }
        }
      }
    }"#;
    let schema = json(data);
    let result = data_schema_from_value(&schema);
    assert!(result.is_ok());
    let result = result.as_ref().unwrap();
    let g = generate_data(result).0;
    println!("{:?}", g)
}

#[test]
fn test_ser_deser() {
    let data = r#"{
        "properties":
        {
            "firstName":
            {
                "type": "string",
                "description": "The person's first name."
            },
            "lastName":
            {
                "type": "string",
                "description": "The person's last name."
            },
            "age":
            {
                "description": "Age in years which must be equal to or greater than zero.",
                "type": "integer",
                "minimum": 10,
                "maximum": 11
            },
            "nested": {
                "type":"object",
                "properties": {
                    "nestedProp":{
                        "type": "string",
                        "description": "a nested property description."
                    }
                }
            }
        }
    }"#;
    let schema = DataSchema::try_from(json(data)).unwrap();
    assert!(includes(
        &serde_json::from_str::<Value>(data).unwrap(),
        &to_value(&data_value_from_schema(&schema)),
    ));
}

#[test]
fn test_integer_constant() {
    let schema = r#"{"properties":{"sample":{"type":"integer","constant":10}}}"#;
    let schema = json(schema);
    let result = data_schema_from_value(&schema);
    println!("schema: {:?}", &result);
    assert!(result.is_ok());
    let result = result.as_ref().unwrap();
    let value = generate_data(result).0;
    println!("{:?}", &value);
    assert_eq!(value.get("sample").unwrap().as_i64().unwrap(), 10);
}

#[test]
fn test_string_constant() {
    let schema = r#"{"properties":{"sample":{"type":"string","constant":"always produce this string"}}}"#;
    let schema = json(schema);
    let result = data_schema_from_value(&schema);
    assert!(result.is_ok());
    let result = result.as_ref().unwrap();
    let value = generate_data(result).0;
    assert_eq!(
        value.get("sample").unwrap().as_str().unwrap(),
        "always produce this string"
    );
}

#[test]
fn test_string_pattern() {
    let regex = regex::Regex::new(r"^\d{4}-\w+-\d{2}$").unwrap();
    let schema = r#"{"properties":{"sample":{"type":"string","pattern":"^[0-9]{4}-[a-z]{2,}-[0-9]{2}$"}}}"#;
    let schema = json(schema);
    let result = data_schema_from_value(&schema);
    assert!(result.is_ok());
    let result = result.as_ref().unwrap();
    let value = generate_data(result).0;
    assert!(regex.is_match(value.get("sample").unwrap().as_str().unwrap()));
}

#[test]
fn test_object() {
    let schema = r#"{"properties":{"sample":{"constant":10,"type":"integer"},"sampleObject":{"properties":{"nestedSample":{"constant":20,"type":"integer"}},"type":"object"}}}"#;
    let schema = json(schema);
    let result = data_schema_from_value(&schema);
    assert!(result.is_ok());
    let result = result.as_ref().unwrap();
    let value = generate_data(result).0;
    assert_eq!(value.get("sample").unwrap().as_i64().unwrap(), 10);
    let object = value.get("sampleObject").unwrap();
    assert_eq!(object.get("nestedSample").unwrap().as_i64().unwrap(), 20);
}

#[test]
fn test_external_data_description_depth_1() {
    let schema = r#"{"properties":{"sample":{"type":"string","dataFile":1}}}"#;
    let schema = json(schema);
    let result = data_schema_from_value(&schema);
    assert!(result.is_ok());
    let result = result.as_ref().unwrap();
    // let (mut rx, rtx) = get_rx_tx().await;
    // let value = generate_data(result).await;
    let value = generate_data_with_external_data(result);
    let value = value.1.unwrap();
    println!("{:?}", value);
    let expect = ExternalData::Object {
        path: "sample".to_string(),
        count: 1,
    };
    assert_eq!(value.first().unwrap(), &expect);
}

#[test]
fn test_external_data_description_depth_2() {
    let schema = r#"{"properties":{"sample":{"type":"object","properties":{"sample":{"type":"string","dataFile":1}}}}}"#;
    let schema = json(schema);
    let result = data_schema_from_value(&schema);
    assert!(result.is_ok());
    let result = result.as_ref().unwrap();
    // let (mut rx, rtx) = get_rx_tx().await;
    // let value = generate_data(result).await;
    let value = generate_data_with_external_data(result);
    let value = value.1.unwrap();
    println!("{:?}", value);
    let expect = ExternalData::Object {
        path: "sample.sample".to_string(),
        count: 1,
    };
    assert_eq!(value.first().unwrap(), &expect);
}

#[test]
fn test_external_data_description_depth_3() {
    let schema = r#"{"properties":{"sample":{"type":"object","properties":{"sample":{"type":"object","properties":{"sample":{"type":"string","dataFile":1}}}}}}}"#;
    let schema = json(schema);
    let result = data_schema_from_value(&schema);
    assert!(result.is_ok());
    let result = result.as_ref().unwrap();
    // let (mut rx, rtx) = get_rx_tx().await;
    // let value = generate_data(result).await;
    let value = generate_data_with_external_data(result);
    let value = value.1.unwrap();
    println!("{:?}", value);
    let expect = ExternalData::Object {
        path: "sample.sample.sample".to_string(),
        count: 1,
    };
    assert_eq!(value.first().unwrap(), &expect);
}

#[test]
fn test_multi_external_data_description_depth_1() {
    let schema = r#"{"properties":{"sample":{"type":"string","dataFile":1}, "sample2":{"type":"string","dataFile":2}}}"#;
    let schema = json(schema);
    let result = data_schema_from_value(&schema);
    assert!(result.is_ok());
    let result = result.as_ref().unwrap();
    let value = generate_data_with_external_data(result);
    let value = value.1.unwrap();
    println!("{:?}", value);
    let expect_1 = ExternalData::Object {
        path: "sample".to_string(),
        count: 1,
    };
    let expect_2 = ExternalData::Object {
        path: "sample2".to_string(),
        count: 1,
    };
    assert!(value.contains(&expect_1));
    assert!(value.contains(&expect_2));
}

#[test]
fn test_arr_external_data_description_depth_1() {
    let schema = r#"{"properties":{"keys":{"type":"array","items":{"type": "string", "dataFile":1},"maxLength":10,"minLength":2}}}"#;
    let schema = json(schema);
    let result = data_schema_from_value(&schema);
    assert!(result.is_ok());
    let result = result.as_ref().unwrap();
    let (value, ext_data) = generate_data_with_external_data(result);
    let ext_data = ext_data.unwrap();
    let expect = ExternalData::Array(
        "keys[*]".to_string(),
        vec![ExternalData::Object {
            path: String::from(KEY_FOR_KEYLESS_SCHEMAS),
            count: 0,
        }],
    );
    assert_eq!(ext_data.len(), 1);
    let ext_data = ext_data.first().unwrap();
    assert_eq!(ext_data, &expect);
    println!(
        "generated json data: {:?}, external data: {:?}",
        value, ext_data
    );
    if let ExternalData::Object { path: _, count } = ext_data {
        assert_eq!(value.get("keys").unwrap().as_array().unwrap().len(), *count);
    }
}

// ---------------------------------------------------------------------------------------------

#[test]
fn schema_errors_are_told_apart() {
    let message = |text: &str| data_schema_from_value(&json(text)).unwrap_err().message();
    assert_eq!(message(r#"{"a":1}"#), "properties not found");
    assert_eq!(message(r#"{"properties":{"a":{}}}"#), "type not found for a");
    assert_eq!(
        message(r#"{"properties":{"a":{"type":"object","properties":3}}}"#),
        "object properties not found for : a"
    );
    assert_eq!(
        message(r#"{"properties":{"a":{"type":"object"}}}"#),
        "object should have properties or constant"
    );
    assert_eq!(
        message(r#"{"properties":{"a":{"type":"array"}}}"#),
        "array items not found for : a"
    );
    assert_eq!(
        message(r#"{"properties":{"a":{"type":"integer","minimum":3,"maximum":1}}}"#),
        "invalid constraints - minimum > maximum - {\"type\":\"integer\",\"minimum\":3,\"maximum\":1}"
    );
    assert!(message(r#"{"properties":{"a":{"type":"integer","minimum":"x","maximum":3}}}"#)
        .starts_with("invalid constraints: \"{"));
}

#[test]
fn reading_and_writing_a_schema_again_changes_nothing() {
    let first = data_schema_from_value(&json(with_all_feature_sample_schema())).unwrap();
    let written = data_value_from_schema(&first);
    let second = data_schema_from_value(&written).unwrap();
    assert_eq!(data_value_from_schema(&second), written);
}

#[test]
fn constants_are_drawn_as_they_are() {
    let schema = data_schema_from_value(&json(
        r#"{"properties":{"i":{"type":"integer","constant":-7},"s":{"type":"string","constant":"x"}}}"#,
    ))
    .unwrap();
    assert!(can_generate_data(&schema));
    assert_eq!(generate_data(&schema).0, json(r#"{"s":"x","i":-7}"#));
}

#[test]
fn a_pattern_that_asks_for_too_many_repetitions_is_noticed() {
    let schema = data_schema_from_value(&json(
        r#"{"properties":{"s":{"type":"string","pattern":"a{20,}"}}}"#,
    ))
    .unwrap();
    assert!(!can_generate_data(&schema));
    assert!(try_generate_data(&schema).is_none());
}

#[test]
fn integer_of_drawn_text() {
    assert_eq!(integer_or_zero("12"), 12);
    assert_eq!(integer_or_zero("-3"), -3);
    assert_eq!(integer_or_zero("x"), 0);
    assert_eq!(integer_or_zero("99999999999999999999"), 0);
}

#[test]
fn nothing_is_drawn_for_a_schema_with_a_name() {
    let (value, external) = generate_data(&DataSchema::Object(Some("a".to_string()), vec![]));
    assert_eq!(value, Json::Null);
    assert!(external.is_none());
}
