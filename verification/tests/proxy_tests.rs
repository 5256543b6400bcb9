//! Tests for the orchestrator: routing, planning, the invocation table, and
//! the configuration cache.

use failure_proxy::cache::{cache_ttl_ms, select_source, ConfigCache, ConfigSource};
use failure_proxy::config::{parse_flags, resolve_failures};
use failure_proxy::json::JsonValue;
use failure_proxy::proxy::{
    apply_corruptions, extract_request_id_from_path, finish_begin, finish_error, finish_success,
    plan_invocation, InvocationPlan, PreAction, ProxyCore, Route, Terminal,
};
use failure_proxy::rng::draw_samples;

fn obj(pairs: Vec<(&str, JsonValue)>) -> JsonValue {
    JsonValue::Object(pairs.into_iter().map(|(k, v)| (k.to_string(), v)).collect())
}

fn s(v: &str) -> JsonValue {
    JsonValue::String(v.to_string())
}

fn n(v: i64) -> JsonValue {
    JsonValue::Number(v * 1000)
}

fn b(v: bool) -> JsonValue {
    JsonValue::Bool(v)
}

fn plan_for(config_json: JsonValue, event: JsonValue) -> InvocationPlan {
    let config = parse_flags(&config_json);
    let resolved = resolve_failures(&config);
    let samples = draw_samples(resolved.len());
    plan_invocation(&resolved, &event, &samples, 30_000, 1_000)
}

#[test]
fn test_extract_request_id_from_path() {
    let path = "/2018-06-01/runtime/invocation/abc-123-def/response";
    assert_eq!(extract_request_id_from_path(path), "abc-123-def");

    let path = "/2018-06-01/runtime/invocation/xyz-456/error";
    assert_eq!(extract_request_id_from_path(path), "xyz-456");
}

#[test]
fn test_extract_request_id_from_short_path() {
    let path = "/short";
    assert_eq!(extract_request_id_from_path(path), "");
}

#[test]
fn test_classify_request() {
    match failure_proxy::proxy::classify_request("GET", "/2018-06-01/runtime/invocation/next") {
        Route::InvocationNext => {}
        _ => panic!("expected the next-event route"),
    }
    match failure_proxy::proxy::classify_request(
        "POST",
        "/2018-06-01/runtime/invocation/id-1/response",
    ) {
        Route::InvocationResponse { request_id } => assert_eq!(request_id, "id-1"),
        _ => panic!("expected the response route"),
    }
    match failure_proxy::proxy::classify_request(
        "POST",
        "/2018-06-01/runtime/invocation/id-2/error",
    ) {
        Route::InvocationError { request_id } => assert_eq!(request_id, "id-2"),
        _ => panic!("expected the error route"),
    }
    match failure_proxy::proxy::classify_request("GET", "/2018-06-01/runtime/init/error") {
        Route::Passthrough => {}
        _ => panic!("expected passthrough"),
    }
}

#[test]
fn test_plan_latency_fixed_bounds() {
    let config = obj(vec![(
        "latency",
        obj(vec![
            ("enabled", b(true)),
            ("percentage", n(100)),
            ("min_latency", n(10)),
            ("max_latency", n(10)),
        ]),
    )]);
    let plan = plan_for(config, obj(vec![]));
    assert_eq!(plan.pre_actions.len(), 1);
    match &plan.pre_actions[0] {
        PreAction::Sleep { ms } => assert_eq!(*ms, 10),
        _ => panic!("expected one sleep"),
    }
    match plan.terminal {
        Terminal::Deliver => {}
        _ => panic!("expected delivery"),
    }
    assert_eq!(plan.deferred.len(), 0);
}

#[test]
fn test_plan_exception_short_circuit() {
    let config = obj(vec![(
        "exception",
        obj(vec![
            ("enabled", b(true)),
            ("percentage", n(100)),
            ("exception_msg", s("boom")),
        ]),
    )]);
    let plan = plan_for(config, obj(vec![]));
    assert_eq!(plan.pre_actions.len(), 0);
    match &plan.terminal {
        Terminal::PostError { body } => {
            assert_eq!(
                body,
                "{\"errorMessage\":\"boom\",\"errorType\":\"FailureLambdaException\"}"
            );
        }
        _ => panic!("expected an upstream error post"),
    }
}

#[test]
fn test_plan_statuscode_short_circuit() {
    let config = obj(vec![(
        "statuscode",
        obj(vec![("enabled", b(true)), ("status_code", n(503))]),
    )]);
    let plan = plan_for(config, obj(vec![]));
    match &plan.terminal {
        Terminal::PostResponse { body } => {
            assert_eq!(
                body,
                "{\"statusCode\":503,\"headers\":{\"Content-Type\":\"application/json\"},\
                 \"body\":\"{\\\"message\\\":\\\"Injected status code 503\\\"}\"}"
            );
        }
        _ => panic!("expected an upstream response post"),
    }
}

#[test]
fn test_plan_condition_mismatch_skips() {
    let event = obj(vec![(
        "requestContext",
        obj(vec![("http", obj(vec![("method", s("GET"))]))]),
    )]);
    let config = obj(vec![(
        "latency",
        obj(vec![
            ("enabled", b(true)),
            ("percentage", n(100)),
            ("min_latency", n(100)),
            ("max_latency", n(100)),
            (
                "match",
                JsonValue::Array(vec![obj(vec![
                    ("path", s("requestContext.http.method")),
                    ("value", s("POST")),
                ])]),
            ),
        ]),
    )]);
    let plan = plan_for(config, event);
    assert_eq!(plan.pre_actions.len(), 0);
    match plan.terminal {
        Terminal::Deliver => {}
        _ => panic!("expected delivery"),
    }
}

#[test]
fn test_two_exception_invocations_leave_nothing() {
    let config = obj(vec![(
        "exception",
        obj(vec![("enabled", b(true)), ("exception_msg", s("boom"))]),
    )]);
    let mut core = ProxyCore::new();
    let mut posts: Vec<String> = Vec::new();
    for i in 0..2 {
        let removed = core.begin_cleanup();
        assert!(!removed);
        let plan = plan_for(
            obj(vec![(
                "exception",
                obj(vec![("enabled", b(true)), ("exception_msg", s("boom"))]),
            )]),
            obj(vec![]),
        );
        let delivering = matches!(plan.terminal, Terminal::Deliver);
        match &plan.terminal {
            Terminal::PostError { body } => posts.push(body.clone()),
            _ => panic!("expected a short circuit"),
        }
        let outcome = finish_begin(
            &mut core,
            format!("req-{}", i),
            obj(vec![]),
            plan.deferred,
            delivering,
            false,
        );
        assert!(!outcome.stored);
        assert!(!outcome.remove_denylist);
        assert_eq!(core.invocations.len(), 0);
    }
    let _ = config;
    assert_eq!(posts.len(), 2);
    assert_eq!(posts[0], posts[1]);
}

#[test]
fn test_finish_success_removes_entry_and_corrupts() {
    let config = obj(vec![(
        "corruption",
        obj(vec![("enabled", b(true)), ("body", s("swapped"))]),
    )]);
    let parsed = parse_flags(&config);
    let resolved = resolve_failures(&parsed);
    let event = obj(vec![]);
    let samples = draw_samples(resolved.len());
    let plan = plan_invocation(&resolved, &event, &samples, 30_000, 1_000);
    assert_eq!(plan.deferred.len(), 1);

    let mut core = ProxyCore::new();
    let outcome = finish_begin(&mut core, "req-9".to_string(), event, plan.deferred, true, false);
    assert!(outcome.stored);
    assert_eq!(core.invocations.len(), 1);

    let body = "{\"statusCode\":200,\"body\":\"original\"}".to_string();
    let fin = finish_success(&mut core, "req-9", Some(&body));
    assert_eq!(core.invocations.len(), 0);
    assert!(!fin.remove_denylist);
    let out = fin.body.unwrap();
    let parsed_out = failure_proxy::json_text::parse_json(&out).unwrap();
    match parsed_out.get("body") {
        Some(JsonValue::String(x)) => assert_eq!(x, "swapped"),
        _ => panic!("body missing"),
    }
}

#[test]
fn test_finish_error_removes_entry() {
    let mut core = ProxyCore::new();
    let outcome = finish_begin(
        &mut core,
        "req-3".to_string(),
        obj(vec![]),
        Vec::new(),
        true,
        true,
    );
    assert!(outcome.stored);
    let remove = finish_error(&mut core, "req-3");
    assert!(remove);
    assert_eq!(core.invocations.len(), 0);
    assert!(!finish_error(&mut core, "req-3"));
}

#[test]
fn test_apply_corruptions_in_order() {
    let config = obj(vec![(
        "corruption",
        obj(vec![("enabled", b(true)), ("body", s("first"))]),
    )]);
    let parsed = parse_flags(&config);
    let resolved = resolve_failures(&parsed);
    let samples = draw_samples(resolved.len());
    let out = apply_corruptions(
        &obj(vec![]),
        &resolved,
        "{\"body\":\"orig\"}",
        &samples,
    );
    let parsed_out = failure_proxy::json_text::parse_json(&out).unwrap();
    match parsed_out.get("body") {
        Some(JsonValue::String(x)) => assert_eq!(x, "first"),
        _ => panic!("body missing"),
    }
}

#[test]
fn test_cleanup_denylist_decision() {
    assert!(failure_proxy::proxy::cleanup_denylist(true));
    assert!(!failure_proxy::proxy::cleanup_denylist(false));
}

#[test]
fn test_select_source_precedence() {
    assert_eq!(select_source(None, None), ConfigSource::NoSource);
    let cfg = "flags".to_string();
    let param = "param".to_string();
    assert_eq!(select_source(Some(&cfg), None), ConfigSource::AppConfig);
    assert_eq!(select_source(Some(&cfg), Some(&param)), ConfigSource::AppConfig);
    assert_eq!(select_source(None, Some(&param)), ConfigSource::ParameterStore);
    let empty = String::new();
    assert_eq!(select_source(Some(&empty), None), ConfigSource::NoSource);
}

#[test]
fn test_no_source_means_no_injection() {
    let mut cache = ConfigCache::new();
    let config = cache.accept_fetch(None, 0);
    assert!(config.is_empty());
    let resolved = resolve_failures(&config);
    assert_eq!(resolved.len(), 0);
}

#[test]
fn test_cache_ttl_choices() {
    assert_eq!(cache_ttl_ms(None, false).ttl_ms, 60_000);
    assert_eq!(cache_ttl_ms(None, true).ttl_ms, 0);
    let v = "1.5".to_string();
    let choice = cache_ttl_ms(Some(&v), false);
    assert_eq!(choice.ttl_ms, 1_500);
    assert!(!choice.appconfig_warning);
    let w = "2".to_string();
    let choice = cache_ttl_ms(Some(&w), true);
    assert_eq!(choice.ttl_ms, 2_000);
    assert!(choice.appconfig_warning);
    let exp = "1e3".to_string();
    assert_eq!(cache_ttl_ms(Some(&exp), false).ttl_ms, 1_000_000);
    let tiny = "0.0001".to_string();
    assert_eq!(cache_ttl_ms(Some(&tiny), false).ttl_ms, 0);
    let bad = "soon".to_string();
    assert_eq!(cache_ttl_ms(Some(&bad), false).ttl_ms, 60_000);
    let negative = "-1".to_string();
    assert_eq!(cache_ttl_ms(Some(&negative), false).ttl_ms, 60_000);
}

#[test]
fn test_cache_freshness_and_staleness() {
    let mut cache = ConfigCache::new();
    let raw = obj(vec![("latency", obj(vec![("enabled", b(true))]))]);
    let stored = cache.accept_fetch(Some(&raw), 1_000);
    assert_eq!(stored.len(), 1);
    assert!(cache.cached(1_500, 60_000).is_some());
    assert!(cache.cached(80_000, 60_000).is_none());
    assert!(cache.cached(1_500, 0).is_none());
    let stale = cache.accept_fetch(None, 90_000);
    assert_eq!(stale.len(), 1);
}

#[test]
fn test_draw_samples_ranges() {
    let samples = draw_samples(64);
    assert_eq!(samples.len(), 64);
    for s in samples {
        assert!(s.roll < 100);
        assert!(s.frac < 1000);
    }
}

#[test]
fn test_plan_zero_percentage_never_fires() {
    let config = obj(vec![(
        "latency",
        obj(vec![
            ("enabled", b(true)),
            ("percentage", n(0)),
            ("min_latency", n(10)),
            ("max_latency", n(10)),
        ]),
    )]);
    for _ in 0..20 {
        let plan = plan_for(
            obj(vec![(
                "latency",
                obj(vec![
                    ("enabled", b(true)),
                    ("percentage", n(0)),
                    ("min_latency", n(10)),
                    ("max_latency", n(10)),
                ]),
            )]),
            obj(vec![]),
        );
        assert_eq!(plan.pre_actions.len(), 0);
    }
    let _ = config;
}

#[test]
fn test_kill_switch_exact_match() {
    let yes = "true".to_string();
    let no = "TRUE".to_string();
    assert!(failure_proxy::proxy::kill_switch_active(Some(&yes)));
    assert!(!failure_proxy::proxy::kill_switch_active(Some(&no)));
    assert!(!failure_proxy::proxy::kill_switch_active(None));
}

#[test]
fn test_plan_timeout_discounts_earlier_sleep() {
    // With a fixed ten-millisecond latency before it, the timeout sleep
    // reckons from the clock advanced by that latency: together the two
    // sleeps reach the deadline less the buffer, not beyond it.
    let config = obj(vec![
        (
            "latency",
            obj(vec![
                ("enabled", b(true)),
                ("min_latency", n(10)),
                ("max_latency", n(10)),
            ]),
        ),
        (
            "timeout",
            obj(vec![("enabled", b(true)), ("timeout_buffer_ms", n(0))]),
        ),
    ]);
    let plan = plan_for(config, obj(vec![]));
    assert_eq!(plan.pre_actions.len(), 2);
    let mut total: u64 = 0;
    for action in &plan.pre_actions {
        match action {
            PreAction::Sleep { ms } => total += ms,
            _ => panic!("expected sleeps only"),
        }
    }
    // plan_for plans against deadline 30000 and clock 1000.
    assert_eq!(total, 30_000 - 1_000);
    match &plan.pre_actions[1] {
        PreAction::Sleep { ms } => assert_eq!(*ms, 30_000 - 1_000 - 10),
        _ => panic!("expected a sleep"),
    }
}
