//! Tests for configuration parsing, validation, and resolution.

use failure_proxy::config::{parse_flags, resolve_failures, FlagConfig, FlagValue};
use failure_proxy::json::JsonValue;

fn obj(pairs: Vec<(&str, JsonValue)>) -> JsonValue {
    JsonValue::Object(pairs.into_iter().map(|(k, v)| (k.to_string(), v)).collect())
}

fn s(v: &str) -> JsonValue {
    JsonValue::String(v.to_string())
}

/// A whole number, in the model's thousandths fixed point.
fn n(v: i64) -> JsonValue {
    JsonValue::Number(v * 1000)
}

fn b(v: bool) -> JsonValue {
    JsonValue::Bool(v)
}

fn arr(items: Vec<JsonValue>) -> JsonValue {
    JsonValue::Array(items)
}

#[test]
fn test_parse_flags_valid_config() {
    let json = obj(vec![
        (
            "latency",
            obj(vec![
                ("enabled", b(true)),
                ("percentage", n(50)),
                ("min_latency", n(100)),
                ("max_latency", n(500)),
            ]),
        ),
        (
            "exception",
            obj(vec![("enabled", b(false)), ("exception_msg", s("test error"))]),
        ),
    ]);

    let config = parse_flags(&json);
    assert_eq!(config.len(), 2);

    let latency = config.latency.as_ref().unwrap();
    assert!(latency.enabled);
    assert_eq!(latency.percentage, Some(50));
    assert_eq!(latency.min_latency, Some(100_000));
    assert_eq!(latency.max_latency, Some(500_000));

    let exception = config.exception.as_ref().unwrap();
    assert!(!exception.enabled);
    assert_eq!(exception.exception_msg.as_deref(), Some("test error"));
}

#[test]
fn test_parse_flags_unknown_keys_ignored() {
    let json = obj(vec![
        ("unknown_mode", obj(vec![("enabled", b(true))])),
        ("latency", obj(vec![("enabled", b(true))])),
    ]);

    let config = parse_flags(&json);
    assert_eq!(config.len(), 1);
    assert!(config.latency.is_some());
}

#[test]
fn test_parse_flags_invalid_flag_skipped() {
    let json = obj(vec![(
        "latency",
        obj(vec![
            ("enabled", b(true)),
            ("min_latency", n(500)),
            ("max_latency", n(100)),
        ]),
    )]);

    let config = parse_flags(&json);
    assert!(config.is_empty());
}

#[test]
fn test_parse_flags_non_object() {
    let json = s("not an object");
    let config = parse_flags(&json);
    assert!(config.is_empty());
}

#[test]
fn test_parse_flags_non_object_flag() {
    let json = obj(vec![("latency", s("not an object"))]);
    let config = parse_flags(&json);
    assert!(config.is_empty());
}

#[test]
fn test_resolve_failures_order() {
    let json = obj(vec![
        ("exception", obj(vec![("enabled", b(true))])),
        ("latency", obj(vec![("enabled", b(true))])),
        ("corruption", obj(vec![("enabled", b(true))])),
    ]);
    let config = parse_flags(&json);
    let failures = resolve_failures(&config);

    assert_eq!(failures.len(), 3);
    assert_eq!(failures[0].mode.name(), "latency");
    assert_eq!(failures[1].mode.name(), "exception");
    assert_eq!(failures[2].mode.name(), "corruption");
}

#[test]
fn test_resolve_failures_defaults_percentage() {
    let json = obj(vec![("latency", obj(vec![("enabled", b(true))]))]);
    let config = parse_flags(&json);
    let failures = resolve_failures(&config);

    assert_eq!(failures.len(), 1);
    assert_eq!(failures[0].percentage, 100);
}

#[test]
fn test_resolve_failures_clamps_percentage() {
    let mut config = FlagConfig::empty();
    config.latency = Some(FlagValue {
        enabled: true,
        percentage: Some(200),
        ..Default::default()
    });
    let failures = resolve_failures(&config);
    assert_eq!(failures[0].percentage, 100);
}

#[test]
fn test_resolve_failures_skips_disabled() {
    let json = obj(vec![
        ("latency", obj(vec![("enabled", b(false))])),
        ("exception", obj(vec![("enabled", b(true))])),
    ]);
    let config = parse_flags(&json);
    let failures = resolve_failures(&config);

    assert_eq!(failures.len(), 1);
    assert_eq!(failures[0].mode.name(), "exception");
}

#[test]
fn test_validate_statuscode_range() {
    let json = obj(vec![(
        "statuscode",
        obj(vec![("enabled", b(true)), ("status_code", n(999))]),
    )]);
    let config = parse_flags(&json);
    assert!(config.is_empty());
}

#[test]
fn test_validate_diskspace_range() {
    let json = obj(vec![(
        "diskspace",
        obj(vec![("enabled", b(true)), ("disk_space", n(0))]),
    )]);
    let config = parse_flags(&json);
    assert!(config.is_empty());
}

#[test]
fn test_validate_match_conditions() {
    let json = obj(vec![(
        "latency",
        obj(vec![
            ("enabled", b(true)),
            (
                "match",
                arr(vec![
                    obj(vec![
                        ("path", s("requestContext.http.method")),
                        ("value", s("GET")),
                    ]),
                    obj(vec![("path", s("headers.host")), ("operator", s("exists"))]),
                ]),
            ),
        ]),
    )]);
    let config = parse_flags(&json);
    assert_eq!(config.len(), 1);

    let latency = config.latency.as_ref().unwrap();
    let conditions = latency.match_conditions.as_ref().unwrap();
    assert_eq!(conditions.len(), 2);
    assert_eq!(conditions[0].path, "requestContext.http.method");
    assert_eq!(conditions[0].value.as_deref(), Some("GET"));
}

#[test]
fn test_validate_invalid_regex_in_denylist() {
    let json = obj(vec![(
        "denylist",
        obj(vec![("enabled", b(true)), ("deny_list", arr(vec![s("[invalid")]))]),
    )]);
    let config = parse_flags(&json);
    assert!(config.is_empty());
}

#[test]
fn test_all_failure_modes() {
    let json = obj(vec![
        (
            "latency",
            obj(vec![("enabled", b(true)), ("min_latency", n(100)), ("max_latency", n(200))]),
        ),
        (
            "timeout",
            obj(vec![("enabled", b(true)), ("timeout_buffer_ms", n(50))]),
        ),
        (
            "diskspace",
            obj(vec![("enabled", b(true)), ("disk_space", n(100))]),
        ),
        (
            "denylist",
            obj(vec![("enabled", b(true)), ("deny_list", arr(vec![s(".*\\.example\\.com")]))]),
        ),
        (
            "statuscode",
            obj(vec![("enabled", b(true)), ("status_code", n(503))]),
        ),
        (
            "exception",
            obj(vec![("enabled", b(true)), ("exception_msg", s("chaos"))]),
        ),
        (
            "corruption",
            obj(vec![("enabled", b(true)), ("body", s("corrupted"))]),
        ),
    ]);
    let config = parse_flags(&json);
    assert_eq!(config.len(), 7);

    let failures = resolve_failures(&config);
    assert_eq!(failures.len(), 7);
    assert_eq!(failures[0].mode.name(), "latency");
    assert_eq!(failures[1].mode.name(), "timeout");
    assert_eq!(failures[2].mode.name(), "diskspace");
    assert_eq!(failures[3].mode.name(), "denylist");
    assert_eq!(failures[4].mode.name(), "statuscode");
    assert_eq!(failures[5].mode.name(), "exception");
    assert_eq!(failures[6].mode.name(), "corruption");
}

#[test]
fn test_parse_serialize_round_trip() {
    let json = obj(vec![
        (
            "latency",
            obj(vec![
                ("enabled", b(true)),
                ("percentage", n(50)),
                ("min_latency", n(100)),
                ("max_latency", n(500)),
            ]),
        ),
        (
            "denylist",
            obj(vec![("enabled", b(true)), ("deny_list", arr(vec![s("example\\.com")]))]),
        ),
        (
            "corruption",
            obj(vec![("enabled", b(true)), ("body", s("swapped"))]),
        ),
    ]);
    let config = parse_flags(&json);
    assert_eq!(config.len(), 3);

    let serialized = failure_proxy::serialize::serialize_config(&config);
    let reparsed = parse_flags(&serialized);
    assert_eq!(reparsed.len(), 3);
    let latency = reparsed.latency.as_ref().unwrap();
    assert!(latency.enabled);
    assert_eq!(latency.percentage, Some(50));
    assert_eq!(latency.min_latency, Some(100_000));
    assert_eq!(latency.max_latency, Some(500_000));
    let denylist = reparsed.denylist.as_ref().unwrap();
    assert_eq!(denylist.deny_list.as_ref().unwrap()[0], "example\\.com");
    let corruption = reparsed.corruption.as_ref().unwrap();
    assert_eq!(corruption.body.as_deref(), Some("swapped"));
}

#[test]
fn test_fractional_percentage_rejected() {
    // A percentage that is not an integer fails validation and drops the flag.
    let json = obj(vec![(
        "latency",
        obj(vec![("enabled", b(true)), ("percentage", JsonValue::Number(50_500))]),
    )]);
    let config = parse_flags(&json);
    assert!(config.is_empty());
}

#[test]
fn test_enabled_must_be_boolean() {
    let json = obj(vec![("latency", obj(vec![("enabled", s("yes"))]))]);
    let config = parse_flags(&json);
    assert!(config.is_empty());
}

#[test]
fn test_boundary_ranges_accepted() {
    let json = obj(vec![
        (
            "statuscode",
            obj(vec![("enabled", b(true)), ("status_code", n(100))]),
        ),
        (
            "diskspace",
            obj(vec![("enabled", b(true)), ("disk_space", n(10240))]),
        ),
    ]);
    let config = parse_flags(&json);
    assert_eq!(config.len(), 2);
    assert_eq!(config.statuscode.as_ref().unwrap().status_code, Some(100));
    assert_eq!(config.diskspace.as_ref().unwrap().disk_space, Some(10240));

    let too_big = obj(vec![(
        "diskspace",
        obj(vec![("enabled", b(true)), ("disk_space", n(10241))]),
    )]);
    assert!(parse_flags(&too_big).is_empty());

    let code_599 = obj(vec![(
        "statuscode",
        obj(vec![("enabled", b(true)), ("status_code", n(599))]),
    )]);
    assert!(parse_flags(&code_599).statuscode.is_some());
}

#[test]
fn test_condition_requires_value_except_exists() {
    let json = obj(vec![(
        "latency",
        obj(vec![
            ("enabled", b(true)),
            (
                "match",
                arr(vec![obj(vec![("path", s("headers.host"))])]),
            ),
        ]),
    )]);
    // An equality condition without a value fails validation.
    assert!(parse_flags(&json).is_empty());
}
