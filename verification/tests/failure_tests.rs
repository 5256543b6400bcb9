//! Tests for the match engine and the failure effects.

use failure_proxy::config::{FlagValue, MatchCondition, MatchOperator};
use failure_proxy::failures::{
    build_exception_payload, build_statuscode_payload, clear_diskspace, corrupt_response,
    fill_file_name, latency_sleep_ms, mangle_string, timeout_sleep_ms,
};
use failure_proxy::json::JsonValue;
use failure_proxy::json_text::{parse_json, to_json_text};
use failure_proxy::matching::{get_nested_value, json_value_to_string, matches_conditions};

fn obj(pairs: Vec<(&str, JsonValue)>) -> JsonValue {
    JsonValue::Object(pairs.into_iter().map(|(k, v)| (k.to_string(), v)).collect())
}

fn s(v: &str) -> JsonValue {
    JsonValue::String(v.to_string())
}

fn get_str(v: &JsonValue, key: &str) -> String {
    match v.get(key) {
        Some(JsonValue::String(x)) => x.clone(),
        other => panic!("expected a string at {}, got {:?}", key, other.is_some()),
    }
}

#[test]
fn test_get_nested_value() {
    let event = obj(vec![
        (
            "requestContext",
            obj(vec![("http", obj(vec![("method", s("GET"))]))]),
        ),
        ("headers", obj(vec![("host", s("example.com"))])),
    ]);

    let val = get_nested_value(&event, "requestContext.http.method").unwrap();
    assert_eq!(json_value_to_string(val), "GET");

    let val = get_nested_value(&event, "headers.host").unwrap();
    assert_eq!(json_value_to_string(val), "example.com");

    assert!(get_nested_value(&event, "nonexistent.path").is_none());
}

#[test]
fn test_matches_conditions_eq() {
    let event = obj(vec![(
        "requestContext",
        obj(vec![("http", obj(vec![("method", s("GET"))]))]),
    )]);
    let conditions = vec![MatchCondition {
        path: "requestContext.http.method".to_string(),
        value: Some("GET".to_string()),
        operator: None,
    }];
    assert!(matches_conditions(&event, &conditions));

    let conditions_no_match = vec![MatchCondition {
        path: "requestContext.http.method".to_string(),
        value: Some("POST".to_string()),
        operator: None,
    }];
    assert!(!matches_conditions(&event, &conditions_no_match));
}

#[test]
fn test_matches_conditions_exists() {
    let event = obj(vec![("headers", obj(vec![("host", s("example.com"))]))]);

    let conditions = vec![MatchCondition {
        path: "headers.host".to_string(),
        value: None,
        operator: Some(MatchOperator::Exists),
    }];
    assert!(matches_conditions(&event, &conditions));

    let conditions_missing = vec![MatchCondition {
        path: "headers.authorization".to_string(),
        value: None,
        operator: Some(MatchOperator::Exists),
    }];
    assert!(!matches_conditions(&event, &conditions_missing));
}

#[test]
fn test_matches_conditions_starts_with() {
    let event = obj(vec![("path", s("/api/v1/users"))]);

    let conditions = vec![MatchCondition {
        path: "path".to_string(),
        value: Some("/api/v1".to_string()),
        operator: Some(MatchOperator::StartsWith),
    }];
    assert!(matches_conditions(&event, &conditions));
}

#[test]
fn test_matches_conditions_regex() {
    let event = obj(vec![("path", s("/api/v2/users/123"))]);

    let conditions = vec![MatchCondition {
        path: "path".to_string(),
        value: Some(r"/api/v\d+/users/\d+".to_string()),
        operator: Some(MatchOperator::Regex),
    }];
    assert!(matches_conditions(&event, &conditions));
}

#[test]
fn test_matches_conditions_regex_no_match() {
    let event = obj(vec![("path", s("/health"))]);
    let conditions = vec![MatchCondition {
        path: "path".to_string(),
        value: Some(r"/api/v\d+".to_string()),
        operator: Some(MatchOperator::Regex),
    }];
    assert!(!matches_conditions(&event, &conditions));
}

#[test]
fn test_matches_conditions_all_must_match() {
    let event = obj(vec![
        (
            "requestContext",
            obj(vec![("http", obj(vec![("method", s("GET"))]))]),
        ),
        ("path", s("/api/v1/users")),
    ]);

    let conditions = vec![
        MatchCondition {
            path: "requestContext.http.method".to_string(),
            value: Some("GET".to_string()),
            operator: None,
        },
        MatchCondition {
            path: "path".to_string(),
            value: Some("/api/v1".to_string()),
            operator: Some(MatchOperator::StartsWith),
        },
    ];
    assert!(matches_conditions(&event, &conditions));

    let conditions_partial = vec![
        MatchCondition {
            path: "requestContext.http.method".to_string(),
            value: Some("POST".to_string()),
            operator: None,
        },
        MatchCondition {
            path: "path".to_string(),
            value: Some("/api/v1".to_string()),
            operator: Some(MatchOperator::StartsWith),
        },
    ];
    assert!(!matches_conditions(&event, &conditions_partial));
}

#[test]
fn test_matches_conditions_empty_conditions() {
    let event = obj(vec![]);
    assert!(matches_conditions(&event, &vec![]));
}

#[test]
fn test_build_exception_payload() {
    let flag = FlagValue {
        enabled: true,
        exception_msg: Some("chaos test".to_string()),
        ..Default::default()
    };
    let payload = build_exception_payload(&flag);
    assert_eq!(get_str(&payload, "errorMessage"), "chaos test");
    assert_eq!(get_str(&payload, "errorType"), "FailureLambdaException");
}

#[test]
fn test_build_exception_payload_default_msg() {
    let flag = FlagValue {
        enabled: true,
        ..Default::default()
    };
    let payload = build_exception_payload(&flag);
    assert_eq!(get_str(&payload, "errorMessage"), "Injected exception");
}

#[test]
fn test_build_statuscode_payload() {
    let flag = FlagValue {
        enabled: true,
        status_code: Some(503),
        ..Default::default()
    };
    let payload = build_statuscode_payload(&flag);
    match payload.get("statusCode") {
        Some(JsonValue::Number(k)) => assert_eq!(*k, 503_000),
        _ => panic!("statusCode missing"),
    }
    let headers = payload.get("headers").unwrap();
    assert!(get_str(headers, "Content-Type").contains("json"));
}

#[test]
fn test_build_statuscode_payload_default() {
    let flag = FlagValue {
        enabled: true,
        ..Default::default()
    };
    let payload = build_statuscode_payload(&flag);
    match payload.get("statusCode") {
        Some(JsonValue::Number(k)) => assert_eq!(*k, 500_000),
        _ => panic!("statusCode missing"),
    }
}

#[test]
fn test_corrupt_response_replace() {
    let flag = FlagValue {
        enabled: true,
        body: Some("replaced body".to_string()),
        ..Default::default()
    };
    let body = r#"{"statusCode":200,"body":"original"}"#;
    let result = corrupt_response(&flag, body);
    let parsed = parse_json(&result).unwrap();
    assert_eq!(get_str(&parsed, "body"), "replaced body");
    match parsed.get("statusCode") {
        Some(JsonValue::Number(k)) => assert_eq!(*k, 200_000),
        _ => panic!("statusCode missing"),
    }
}

#[test]
fn test_corrupt_response_mangle() {
    let flag = FlagValue {
        enabled: true,
        ..Default::default()
    };
    let body = r#"{"statusCode":200,"body":"hello world this is a test message"}"#;
    let result = corrupt_response(&flag, body);
    let parsed = parse_json(&result).unwrap();
    let mangled_body = get_str(&parsed, "body");
    assert!(mangled_body.contains('\u{FFFD}'));
    assert!(mangled_body.len() < "hello world this is a test message".len() + 10);
}

#[test]
fn test_corrupt_response_no_body_field() {
    let flag = FlagValue {
        enabled: true,
        ..Default::default()
    };
    let body = r#"{"statusCode":200}"#;
    let result = corrupt_response(&flag, body);
    assert_eq!(result, body);
}

#[test]
fn test_corrupt_response_replace_no_body_field() {
    let flag = FlagValue {
        enabled: true,
        body: Some("injected".to_string()),
        ..Default::default()
    };
    let body = r#"{"statusCode":200}"#;
    let result = corrupt_response(&flag, body);
    let parsed = parse_json(&result).unwrap();
    assert_eq!(get_str(&parsed, "body"), "injected");
}

#[test]
fn test_corrupt_response_non_json() {
    let flag = FlagValue {
        enabled: true,
        body: Some("substitute".to_string()),
        ..Default::default()
    };
    let result = corrupt_response(&flag, "plain text, not a document");
    assert_eq!(result, "substitute");
}

#[test]
fn test_mangle_string() {
    let input = "hello world this is a test message with enough characters";
    let result = mangle_string(input);
    assert!(result.contains('\u{FFFD}'));
    assert!(result.ends_with("\u{FFFD}\u{FFFD}\u{FFFD}"));
    let without_replacement = result.trim_end_matches('\u{FFFD}');
    assert!(without_replacement.len() < input.len());
    // The cut lies at three- to eight-tenths of the length.
    assert!(without_replacement.len() >= input.len() * 3 / 10);
    assert!(without_replacement.len() <= input.len() * 8 / 10);
}

#[test]
fn test_mangle_string_empty() {
    assert_eq!(mangle_string(""), "");
}

#[test]
fn test_json_value_to_string() {
    assert_eq!(json_value_to_string(&s("hello")), "hello");
    assert_eq!(json_value_to_string(&JsonValue::Number(42_000)), "42");
    assert_eq!(json_value_to_string(&JsonValue::Bool(true)), "true");
}

#[test]
fn test_latency_sleep_bounds() {
    let flag = FlagValue {
        enabled: true,
        min_latency: Some(10_000),
        max_latency: Some(20_000),
        ..Default::default()
    };
    for frac in [0u64, 1, 499, 999] {
        let ms = latency_sleep_ms(&flag, frac);
        assert!((10..=20).contains(&ms));
    }
    assert_eq!(latency_sleep_ms(&flag, 0), 10);
}

#[test]
fn test_timeout_sleep() {
    let flag = FlagValue {
        enabled: true,
        timeout_buffer_ms: Some(50_000),
        ..Default::default()
    };
    assert_eq!(timeout_sleep_ms(1_000, 400, &flag), 550);
    assert_eq!(timeout_sleep_ms(400, 1_000, &flag), 0);
    assert_eq!(timeout_sleep_ms(1_000, 990, &flag), 0);
}

#[test]
fn test_fill_file_name_shape() {
    let name = fill_file_name(1234, 0xdeadbeef);
    assert_eq!(name, "diskspace-failure-1234-deadbeef.tmp");
    assert!(name.starts_with("diskspace-failure-"));
}

#[test]
fn test_clear_diskspace_selects_fill_files() {
    let entries = vec![
        "diskspace-failure-1-0000aaaa.tmp".to_string(),
        ".failure-lambda-ready".to_string(),
        "diskspace-failure-2-0000bbbb.tmp".to_string(),
        "unrelated.txt".to_string(),
    ];
    let to_remove = clear_diskspace(&entries);
    assert_eq!(to_remove.len(), 2);
    assert_eq!(to_remove[0], "diskspace-failure-1-0000aaaa.tmp");
    assert_eq!(to_remove[1], "diskspace-failure-2-0000bbbb.tmp");
    let left: Vec<&String> = entries.iter().filter(|e| !to_remove.contains(e)).collect();
    assert!(left.iter().all(|e| !e.starts_with("diskspace-failure-")));
}

#[test]
fn test_json_text_round_trip() {
    let doc = obj(vec![
        ("a", JsonValue::Number(1_500)),
        ("b", s("x\"y\\z")),
        ("c", JsonValue::Array(vec![JsonValue::Null, JsonValue::Bool(false)])),
    ]);
    let text = to_json_text(&doc);
    assert_eq!(text, "{\"a\":1.5,\"b\":\"x\\\"y\\\\z\",\"c\":[null,false]}");
    let back = parse_json(&text).unwrap();
    assert_eq!(to_json_text(&back), text);
}

#[test]
fn test_parse_json_numbers_and_ws() {
    let v = parse_json(" { \"n\" : -2.25 } ").unwrap();
    match v.get("n") {
        Some(JsonValue::Number(k)) => assert_eq!(*k, -2_250),
        _ => panic!("number missing"),
    }
    assert!(parse_json("not json").is_none());
}

#[test]
fn test_parse_json_exponents_and_truncation() {
    let n_of = |text: &str| -> i64 {
        let v = parse_json(text).unwrap();
        match v.get("n") {
            Some(JsonValue::Number(k)) => *k,
            _ => panic!("number missing"),
        }
    };
    assert_eq!(n_of("{\"n\": 1e3}"), 1_000_000);
    assert_eq!(n_of("{\"n\": 2.5E+1}"), 25_000);
    assert_eq!(n_of("{\"n\": 0.0001}"), 0);
    assert_eq!(n_of("{\"n\": -2.5e-1}"), -250);
    assert_eq!(n_of("{\"n\": 1.23456}"), 1_234);
    // Far past the range, the value clamps.
    assert_eq!(n_of("{\"n\": 1e30}"), i64::MAX);
    assert_eq!(n_of("{\"n\": -1e30}"), i64::MIN);
    assert_eq!(n_of("{\"n\": 0e99999999999999999999}"), 0);
}

#[test]
fn test_corrupt_response_mangle_prefix_bounds() {
    let flag = FlagValue {
        enabled: true,
        ..Default::default()
    };
    let original = "hello world this is a test";
    let body = format!("{{\"statusCode\":200,\"body\":\"{}\"}}", original);
    let result = corrupt_response(&flag, &body);
    let parsed = parse_json(&result).unwrap();
    let mangled = get_str(&parsed, "body");
    let kept = mangled.trim_end_matches('\u{FFFD}');
    assert!(original.starts_with(kept));
    assert!(mangled.ends_with("\u{FFFD}\u{FFFD}\u{FFFD}"));
    let l = original.len();
    assert!(kept.len() >= l * 3 / 10);
    assert!(kept.len() <= l * 8 / 10);
}

#[test]
fn test_parse_json_duplicate_keys_last_wins() {
    let v = parse_json("{\"a\":1,\"a\":2}").unwrap();
    match v.get("a") {
        Some(JsonValue::Number(k)) => assert_eq!(*k, 2_000),
        _ => panic!("key missing"),
    }
}

#[test]
fn test_corrupt_response_json_non_object() {
    // A body that is valid JSON but not an object takes the replacement
    // verbatim.
    let flag = FlagValue {
        enabled: true,
        body: Some("substitute".to_string()),
        ..Default::default()
    };
    assert_eq!(corrupt_response(&flag, "5"), "substitute");
    assert_eq!(corrupt_response(&flag, "[1]"), "substitute");
}

#[test]
fn test_parse_json_depth_limit() {
    let mut deep = String::new();
    for _ in 0..200 {
        deep.push('[');
    }
    for _ in 0..200 {
        deep.push(']');
    }
    assert!(parse_json(&deep).is_none());
    let mut ok = String::new();
    for _ in 0..100 {
        ok.push('[');
    }
    for _ in 0..100 {
        ok.push(']');
    }
    assert!(parse_json(&ok).is_some());
}
