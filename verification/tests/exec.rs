use cortex::exec::{
    container_nonce, describe, job_file_name, pool_enabled, pooled_event, pooled_outcome, pooled_request,
    protocol_error, request_document, stderr_log_line, time_limit_secs, EventLog, ExecError, WorkerEvent,
};
use cortex::isolation::{ContainerConfig, Isolation};
use cortex::json::Json;
use cortex::model::Runtime;

fn process() -> Isolation {
    Isolation::Process { python_bin: "python3".into(), node_bin: "node".into() }
}

#[test]
fn error_messages_match_their_kinds() {
    assert_eq!(ExecError::Init("x".into()).message(), "executor init failed: x");
    assert_eq!(ExecError::Spawn("no such file".into()).message(), "failed to spawn worker: no such file");
    assert_eq!(
        ExecError::Workload { message: "boom".into(), trace: "t".into() }.message(),
        "workload failed: boom"
    );
    assert_eq!(ExecError::Timeout(30).message(), "workload timed out after 30s");
    assert_eq!(ExecError::Timeout(0).message(), "workload timed out after 0s");
    assert_eq!(ExecError::NoResult.message(), "worker exited without producing a result");
    assert_eq!(ExecError::Protocol("bad".into()).message(), "malformed worker event: bad");
}

#[test]
fn describe_uses_the_workload_message_alone() {
    let e = ExecError::Workload { message: "ValueError: boom".into(), trace: "line 1".into() };
    assert_eq!(describe(&e), "ValueError: boom");
    assert_eq!(describe(&ExecError::Timeout(5)), "workload timed out after 5s");
}

#[test]
fn job_files_are_named_by_runtime() {
    assert_eq!(job_file_name(Runtime::Python), "job.py");
    assert_eq!(job_file_name(Runtime::Typescript), "job.ts");
    assert_eq!(job_file_name(Runtime::Javascript), "job.mjs");
}

#[test]
fn time_limit_is_at_least_one_second() {
    assert_eq!(time_limit_secs(0), 1);
    assert_eq!(time_limit_secs(1), 1);
    assert_eq!(time_limit_secs(45), 45);
}

#[test]
fn nonce_is_the_job_directory_suffix() {
    assert_eq!(container_nonce(Some("cortex-job-Ab12Cd")), "Ab12Cd");
    assert_eq!(container_nonce(Some("cortex-job-")), "");
    assert_eq!(container_nonce(Some("tmp123")), "0");
    assert_eq!(container_nonce(None), "0");
}

#[test]
fn request_names_entry_params_and_inputs() {
    let doc = request_document("/tmp/j/job.py".into(), &Json::Number("4".into()), &Json::Null);
    assert_eq!(
        doc,
        Json::Object(vec![
            ("entry".into(), Json::Str("/tmp/j/job.py".into())),
            ("params".into(), Json::Number("4".into())),
            ("inputs".into(), Json::Null),
        ])
    );
    let pooled = pooled_request("/tmp/j", "job.ts", &Json::Null, &Json::Null);
    assert_eq!(pooled.get("entry"), Some(&Json::Str("/tmp/j/job.ts".into())));
}

#[test]
fn protocol_errors_quote_the_line() {
    match protocol_error("expected value", "nope") {
        ExecError::Protocol(m) => assert_eq!(m, "expected value: nope"),
        other => panic!("unexpected {other:?}"),
    }
}

#[test]
fn stderr_lines_are_tagged_and_blanks_dropped() {
    assert_eq!(stderr_log_line("Traceback"), Some("[stderr] Traceback".to_string()));
    assert_eq!(stderr_log_line("   \t"), None);
    assert_eq!(stderr_log_line(""), None);
}

#[test]
fn one_shot_worker_keeps_logs_and_last_result() {
    let mut log = EventLog::new();
    assert_eq!(log.record(WorkerEvent::Log { line: "line-1".into() }), Some("line-1".to_string()));
    assert_eq!(log.record(WorkerEvent::Result { value: Json::Number("1".into()) }), None);
    log.record(WorkerEvent::Log { line: "line-2".into() });
    log.record(WorkerEvent::Result { value: Json::Number("2".into()) });
    let (value, logs) = log.finish(vec!["[stderr] warn".into()]).unwrap();
    assert_eq!(value, Json::Number("2".into()));
    assert_eq!(logs, vec!["line-1", "line-2", "[stderr] warn"]);
}

#[test]
fn one_shot_worker_without_result_is_an_error() {
    let mut log = EventLog::new();
    log.record(WorkerEvent::Log { line: "hi".into() });
    assert_eq!(log.finish(vec![]), Err(ExecError::NoResult));
    let mut log = EventLog::new();
    log.record(WorkerEvent::Error { message: "boom".into(), trace: "tb".into() });
    assert_eq!(
        log.finish(vec![]),
        Err(ExecError::Workload { message: "boom".into(), trace: "tb".into() })
    );
}

#[test]
fn pooled_worker_stops_at_the_first_result() {
    let mut logs = Vec::new();
    assert_eq!(pooled_event(&mut logs, WorkerEvent::Log { line: "a".into() }), None);
    assert_eq!(
        pooled_event(&mut logs, WorkerEvent::Result { value: Json::Bool(true) }),
        Some(Ok(Json::Bool(true)))
    );
    assert_eq!(logs, vec!["a"]);
}

#[test]
fn pooled_outcomes_decide_reuse() {
    let (r, keep) = pooled_outcome(Some(Ok(Json::Null)), 10, vec!["l".into()], 7);
    let o = r.unwrap();
    assert!(keep);
    assert_eq!(o.logs, vec!["l"]);
    assert_eq!(o.duration_ms, 7);

    let (r, keep) = pooled_outcome(None, 10, vec![], 0);
    assert_eq!(r.unwrap_err(), ExecError::Timeout(10));
    assert!(!keep);

    let (r, keep) =
        pooled_outcome(Some(Err(ExecError::Workload { message: "m".into(), trace: "".into() })), 10, vec![], 0);
    assert!(r.is_err());
    assert!(keep, "a clean workload failure keeps the worker");

    let (r, keep) = pooled_outcome(Some(Err(ExecError::NoResult)), 10, vec![], 0);
    assert_eq!(r.unwrap_err(), ExecError::NoResult);
    assert!(!keep);
}

#[test]
fn pool_only_for_process_isolation_unless_disabled() {
    assert!(pool_enabled(&process(), None));
    assert!(pool_enabled(&process(), Some("1")));
    assert!(!pool_enabled(&process(), Some("0")));
    assert!(!pool_enabled(&Isolation::Container(ContainerConfig::default()), None));
}
