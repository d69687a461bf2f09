use cortex::connectors::{cap_rows, chdb_request, chdb_rows, clickhouse_body, clickhouse_row_lines_of, CHDB_JOB};
use cortex::json::Json;
use cortex::model::Runtime;

#[test]
fn clickhouse_gets_a_format_unless_named() {
    assert_eq!(clickhouse_body("SELECT 1"), "SELECT 1 FORMAT JSONEachRow");
    assert_eq!(clickhouse_body("select 1 format CSV"), "select 1 format CSV");
}

#[test]
fn clickhouse_reads_one_row_past_the_limit() {
    let text = "{\"a\":1}\n\n{\"a\":2}\n{\"a\":3}\n{\"a\":4}\n";
    assert_eq!(clickhouse_row_lines_of(text, 2), vec!["{\"a\":1}", "{\"a\":2}", "{\"a\":3}"]);
    assert_eq!(clickhouse_row_lines_of(text, 10).len(), 4);
    assert_eq!(clickhouse_row_lines_of("", 1).len(), 0);
}

#[test]
fn rows_are_capped_at_the_limit() {
    let rows = vec![Json::Null, Json::Bool(true), Json::Bool(false)];
    let r = cap_rows(rows, 2);
    assert!(r.truncated);
    assert_eq!(r.rows, vec![Json::Null, Json::Bool(true)]);
    let r = cap_rows(vec![Json::Null], 2);
    assert!(!r.truncated);
    assert_eq!(r.rows.len(), 1);
}

#[test]
fn chdb_runs_in_the_python_worker() {
    let req = chdb_request("SELECT 1", 50);
    assert_eq!(req.runtime, Runtime::Python);
    assert_eq!(req.code, CHDB_JOB);
    assert_eq!(req.timeout_secs, 300);
    assert_eq!(req.params.get("cap"), Some(&Json::Number("50".into())));
    assert_eq!(req.params.get("sql"), Some(&Json::Str("SELECT 1".into())));
}

#[test]
fn chdb_results_need_a_rows_array() {
    let ok = Json::Object(vec![
        ("rows".into(), Json::Array(vec![Json::Null])),
        ("truncated".into(), Json::Bool(true)),
    ]);
    let r = chdb_rows(&ok).unwrap();
    assert_eq!(r.rows.len(), 1);
    assert!(r.truncated);
    let no_flag = Json::Object(vec![("rows".into(), Json::Array(vec![]))]);
    assert!(!chdb_rows(&no_flag).unwrap().truncated);
    assert_eq!(chdb_rows(&Json::Null).unwrap_err(), "chdb returned no rows array");
}
