use cortex::api::{
    check_connector, check_function_name, default_exec_timeout, default_limit, default_query_limit, exec_timeout,
    execute_reply, healthz_body, invoke_reply, is_safe_name, query_limit, query_reply, require_safe_name, runs_limit,
    start_order, stream_final, ApiError, StoreError, BAD_REQUEST,
};
use cortex::exec::{ExecError, ExecOutcome};
use cortex::json::Json;
use cortex::model::ConnectorKind;
use cortex::dag::DagError;

#[test]
fn accepts_alphanumeric_underscore_and_dash() {
    assert!(is_safe_name("a"));
    assert!(is_safe_name("Sensor-Readings_01"));
    assert!(is_safe_name("ABCxyz0123"));
}

#[test]
fn rejects_empty_and_over_64_chars() {
    assert!(!is_safe_name(""));
    assert!(is_safe_name(&"a".repeat(64)));
    assert!(!is_safe_name(&"a".repeat(65)));
}

#[test]
fn rejects_disallowed_characters() {
    for bad in ["has space", "dot.name", "slash/name", "café", "semi;colon", "quote\"x"] {
        assert!(!is_safe_name(bad), "should reject {bad:?}");
    }
}

#[test]
fn require_safe_name_names_the_kind() {
    assert_eq!(require_safe_name("dataset", "ok-name"), Ok(()));
    let err = require_safe_name("dataset", "bad name").unwrap_err();
    assert_eq!(err.status, 400);
    assert_eq!(err.message, "dataset name must match [a-zA-Z0-9_-]{1,64}");
}

#[test]
fn constructors_set_status_and_message() {
    let bad = ApiError::bad_request("nope".to_string());
    assert_eq!(bad.status, 400);
    assert_eq!(bad.message, "nope");

    let internal = ApiError::internal(String::from("boom"));
    assert_eq!(internal.status, 500);
    assert_eq!(internal.message, "boom");
}

#[test]
fn store_not_found_maps_to_404() {
    let err = ApiError::from_store(StoreError::NotFound("run 1".into()));
    assert_eq!(err.status, 404);
    assert_eq!(err.message, "not found: run 1");
}

#[test]
fn other_store_errors_map_to_500() {
    let json_err = serde_json::from_str::<serde_json::Value>("{bad").unwrap_err();
    let err = ApiError::from_store(StoreError::Json(json_err.to_string()));
    assert_eq!(err.status, 500);
}

#[test]
fn dag_errors_map_to_400_with_prefix() {
    let err = ApiError::from_dag(DagError::Empty);
    assert_eq!(err.status, 400);
    assert!(
        err.message.starts_with("invalid workflow DAG:"),
        "got {}",
        err.message
    );
}

#[test]
fn io_errors_map_to_500() {
    let io = std::io::Error::other("disk gone");
    let err = ApiError::internal(io.to_string());
    assert_eq!(err.status, 500);
    assert_eq!(err.message, "disk gone");
}

#[test]
fn into_response_emits_error_json_shape() {
    let err = ApiError::bad_request("bad input".into());
    assert_eq!(err.status, BAD_REQUEST);
    assert_eq!(err.body(), Json::Object(vec![("error".into(), Json::Str("bad input".into()))]));
}

#[test]
fn request_limits_and_defaults() {
    assert_eq!(default_limit(), 50);
    assert_eq!(runs_limit(50), 50);
    assert_eq!(runs_limit(9000), 500);
    assert_eq!(default_query_limit(), 10_000);
    assert_eq!(query_limit(0), 1);
    assert_eq!(query_limit(300_000), 200_000);
    assert_eq!(default_exec_timeout(), 120);
    assert_eq!(exec_timeout(0), 1);
    assert_eq!(exec_timeout(601), 600);
    assert_eq!(exec_timeout(30), 30);
}

#[test]
fn function_and_connector_checks() {
    assert!(check_function_name("resize").is_ok());
    let e = check_function_name("").unwrap_err();
    assert_eq!(e.status, BAD_REQUEST);
    assert_eq!(e.message, "function name must match [a-zA-Z0-9_-]{1,64}");

    assert!(check_connector("pg", ConnectorKind::Postgres, "postgres://x").is_ok());
    assert!(check_connector("local", ConnectorKind::Chdb, "").is_ok());
    assert_eq!(
        check_connector("ch", ConnectorKind::Clickhouse, "").unwrap_err().message,
        "this connector kind requires a url"
    );
    assert_eq!(
        check_connector("bad name", ConnectorKind::Chdb, "").unwrap_err().message,
        "connector name must match [a-zA-Z0-9_-]{1,64}"
    );
}

fn obj(entries: Vec<(&str, Json)>) -> Json {
    Json::Object(entries.into_iter().map(|(k, v)| (k.to_string(), v)).collect())
}

#[test]
fn invocation_replies() {
    assert_eq!(healthz_body(), obj(vec![("ok", Json::Bool(true)), ("service", Json::Str("cortex-server".into()))]));
    let ok = invoke_reply(Ok(ExecOutcome { value: Json::Number("8".into()), logs: vec!["l".into()], duration_ms: 1 }), 12);
    assert_eq!(
        ok,
        obj(vec![
            ("ok", Json::Bool(true)),
            ("result", Json::Number("8".into())),
            ("logs", Json::Array(vec![Json::Str("l".into())])),
            ("duration_ms", Json::Number("12".into())),
        ])
    );
    let err = invoke_reply(Err(ExecError::Timeout(3)), 5);
    assert_eq!(
        err,
        obj(vec![
            ("ok", Json::Bool(false)),
            ("error", Json::Str("workload timed out after 3s".into())),
            ("duration_ms", Json::Number("5".into())),
        ])
    );
    let wl = execute_reply(Err(ExecError::Workload { message: "boom".into(), trace: "tb".into() }), 1);
    assert_eq!(wl.get("trace"), Some(&Json::Str("tb".into())));
    assert_eq!(wl.get("error"), Some(&Json::Str("boom".into())));
    let (name, payload) = stream_final(Err(ExecError::NoResult), 2);
    assert_eq!(name, "error");
    assert_eq!(payload.get("error"), Some(&Json::Str("worker exited without producing a result".into())));
}

#[test]
fn tasks_are_listed_by_start_time_unstarted_last() {
    let starts = vec![Some(30), None, Some(10), Some(30), None, Some(20)];
    assert_eq!(start_order(&starts), vec![2, 5, 0, 3, 1, 4]);
}

#[test]
fn query_replies_name_their_connector() {
    let r = query_reply(Json::Array(vec![]), 0, false, Some("pg"), 4);
    assert_eq!(r.get("connector"), Some(&Json::Str("pg".into())));
    assert_eq!(r.get("row_count"), Some(&Json::Number("0".into())));
    let r = query_reply(Json::Array(vec![Json::Null]), 1, true, None, 9);
    assert_eq!(r.get("connector"), None);
    assert_eq!(r.get("truncated"), Some(&Json::Bool(true)));
    assert_eq!(r.get("elapsed_ms"), Some(&Json::Number("9".into())));
}
