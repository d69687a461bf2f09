use cortex::data::{
    dataset_file_name, ingest_run_params, ingest_trigger, ingest_triggered, ndjson_payload, row_cap, table_names,
    IngestCounter,
};
use cortex::json::Json;
use cortex::model::{TriggerSpec, Workflow, WorkflowSpec};

fn wf(on_ingest: Option<&str>) -> Workflow {
    Workflow {
        id: 1,
        spec: WorkflowSpec {
            name: "w".into(),
            description: None,
            params: Json::Null,
            tasks: vec![],
            triggers: TriggerSpec { every_secs: None, on_ingest: on_ingest.map(String::from) },
            max_parallel_tasks: 1,
        },
        created_at: 0,
        updated_at: 0,
    }
}

#[test]
fn datasets_live_in_ndjson_files() {
    assert_eq!(dataset_file_name("events"), "events.ndjson");
}

#[test]
fn dashed_names_get_underscore_alias_names() {
    assert_eq!(table_names("sensor-readings"), vec!["sensor-readings", "sensor_readings"]);
    assert_eq!(table_names("plain_name"), vec!["plain_name"]);
}

fn count(chunks: &[&[u8]]) -> (u64, u64, bool) {
    let mut c = IngestCounter::new();
    for ch in chunks {
        c.feed(ch);
    }
    c.finish()
}

#[test]
fn records_are_lines_however_chunked() {
    assert_eq!(count(&[b"{\"a\":1}\n{\"a\":2}\n"]), (2, 16, false));
    assert_eq!(count(&[b"{\"a\":1}\n{\"a\"", b"", b":2}\n"]), (2, 16, false));
    assert_eq!(count(&[b"{\"a\":1}\n{\"a\":2}"]), (2, 15, true));
    assert_eq!(count(&[]), (0, 0, false));
    assert_eq!(count(&[b"\n"]), (1, 1, false));
}

#[test]
fn ingests_trigger_matching_workflows() {
    let ws = vec![wf(Some("events")), wf(None), wf(Some("other")), wf(Some("events"))];
    assert_eq!(ingest_triggered(&ws, "events"), vec![0, 3]);
    assert_eq!(ingest_trigger("events"), "ingest:events");
    let p = ingest_run_params("events", 3, 42, "/data/datasets/events.ndjson");
    assert_eq!(p.get("records"), Some(&Json::Number("3".into())));
    assert_eq!(p.get("bytes"), Some(&Json::Number("42".into())));
    assert_eq!(p.get("path"), Some(&Json::Str("/data/datasets/events.ndjson".into())));
}

#[test]
fn records_are_appended_one_per_line() {
    let lines = vec!["{\"a\":1}".to_string(), "{\"b\":\"x\"}".to_string()];
    let payload = ndjson_payload(&lines);
    assert_eq!(payload, "{\"a\":1}\n{\"b\":\"x\"}\n");
    assert_eq!(payload.len(), 18);
    assert_eq!(ndjson_payload(&vec![]), "");
}

#[test]
fn row_cap_keeps_at_most_the_limit() {
    assert_eq!(row_cap(10_001, 10_000), (10_000, true));
    assert_eq!(row_cap(10_000, 10_000), (10_000, false));
    assert_eq!(row_cap(3, 10_000), (3, false));
    assert_eq!(row_cap(1, 0), (0, true));
}
