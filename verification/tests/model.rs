use cortex::json::Json;
use cortex::model::{
    default_concurrency, default_timeout, ConnectorKind, Dataset, Function, FunctionSpec, Run, RunState,
    Runtime, Stats, TaskRun, TaskSpec, TriggerSpec, Workflow, WorkflowSpec,
};

fn workflow_named(name: &str) -> Workflow {
    Workflow {
        id: 77,
        spec: WorkflowSpec {
            name: name.into(),
            description: None,
            params: Json::Null,
            tasks: vec![],
            triggers: TriggerSpec::default(),
            max_parallel_tasks: default_concurrency(),
        },
        created_at: 0,
        updated_at: 0,
    }
}

fn obj(entries: &[(&str, Json)]) -> Json {
    Json::Object(entries.iter().map(|(k, v)| (k.to_string(), v.deep_copy())).collect())
}

fn num(n: &str) -> Json {
    Json::Number(n.into())
}

#[test]
fn runtime_as_str_matches_serde_lowercase() {
    for (rt, s) in [
        (Runtime::Python, "python"),
        (Runtime::Typescript, "typescript"),
        (Runtime::Javascript, "javascript"),
    ] {
        assert_eq!(rt.as_str(), s);
    }
}

#[test]
fn run_state_as_str_and_terminality() {
    let table = [
        (RunState::Pending, "pending", false),
        (RunState::Running, "running", false),
        (RunState::Completed, "completed", true),
        (RunState::Failed, "failed", true),
        (RunState::Cancelled, "cancelled", true),
    ];
    for (state, s, terminal) in table {
        assert_eq!(state.as_str(), s);
        assert_eq!(state.is_terminal(), terminal);
    }
}

#[test]
fn run_state_terminality() {
    assert!(RunState::Completed.is_terminal());
    assert!(!RunState::Running.is_terminal());
}

#[test]
fn connector_kind_as_str() {
    assert_eq!(ConnectorKind::Postgres.as_str(), "postgres");
    assert_eq!(ConnectorKind::Clickhouse.as_str(), "clickhouse");
    assert_eq!(ConnectorKind::Chdb.as_str(), "chdb");
}

#[test]
fn run_new_starts_pending_and_copies_workflow_identity() {
    let wf = workflow_named("etl");
    let run = Run::new(&wf, obj(&[("x", num("1"))]), "manual".to_string());
    assert_eq!(run.state, RunState::Pending);
    assert_eq!(run.workflow_id, wf.id);
    assert_eq!(run.workflow_name, "etl");
    assert_eq!(run.trigger, "manual");
    assert_eq!(run.params, obj(&[("x", num("1"))]));
    assert!(run.error.is_none());
    assert!(run.started_at.is_none());
    assert!(run.finished_at.is_none());
}

#[test]
fn run_duration_is_none_until_both_timestamps_present() {
    let mut run = Run::new(&workflow_named("w"), Json::Null, "sdk".to_string());
    assert_eq!(run.duration_ms(), None);
    let start = 1_700_000_000_000_000_000;
    run.started_at = Some(start);
    assert_eq!(run.duration_ms(), None);
    run.finished_at = Some(start + 1_500_000_000);
    assert_eq!(run.duration_ms(), Some(1500));
}

#[test]
fn run_duration_counts_whole_milliseconds_toward_zero() {
    let mut run = Run::new(&workflow_named("w"), Json::Null, "sdk".to_string());
    let start = 1_700_000_000_000_000_000;
    run.started_at = Some(start + 400);
    run.finished_at = Some(start + 1_500_000_300);
    assert_eq!(run.duration_ms(), Some(1499));
    run.finished_at = Some(start + 999_999);
    assert_eq!(run.duration_ms(), Some(0));
    run.finished_at = Some(start - 2_500_000);
    assert_eq!(run.duration_ms(), Some(-2));
}

#[test]
fn task_run_defaults_name_to_id_when_unset() {
    let run_id = 42;
    let spec = TaskSpec {
        id: "extract".into(),
        name: None,
        runtime: Runtime::Python,
        code: "def handler(p, i): return 1".into(),
        depends_on: vec![],
        params: Json::Null,
        timeout_secs: 10,
        retries: 2,
    };
    let tr = TaskRun::new(run_id, &spec);
    assert_eq!(tr.run_id, run_id);
    assert_eq!(tr.task_id, "extract");
    assert_eq!(tr.name, "extract");
    assert_eq!(tr.state, RunState::Pending);
    assert_eq!(tr.attempts, 0);
    assert!(tr.logs.is_empty());
}

#[test]
fn task_run_uses_explicit_name_when_present() {
    let spec = TaskSpec {
        id: "t1".into(),
        name: Some("Friendly".into()),
        runtime: Runtime::Javascript,
        code: String::new(),
        depends_on: vec![],
        params: Json::Null,
        timeout_secs: default_timeout(),
        retries: 0,
    };
    assert_eq!(TaskRun::new(9, &spec).name, "Friendly");
}

#[test]
fn defaults_match_the_documented_values() {
    assert_eq!(default_timeout(), 300);
    assert_eq!(default_concurrency(), 8);
    let t = TriggerSpec::default();
    assert!(t.every_secs.is_none() && t.on_ingest.is_none());
    assert_eq!(Stats::default().runs_total, 0);
}

#[test]
fn fresh_ids_differ() {
    let wf = workflow_named("w");
    let a = Run::new(&wf, Json::Null, "manual".to_string());
    let b = Run::new(&wf, Json::Null, "manual".to_string());
    assert_ne!(a.id, b.id);
}

#[test]
fn function_upsert_keeps_identity_and_counts_invocations() {
    let spec = |code: &str| FunctionSpec {
        name: "resize".into(),
        description: None,
        runtime: Runtime::Javascript,
        code: code.into(),
        timeout_secs: 30,
    };
    let mut f = Function::upserted(None, spec("v1"), 5, 100);
    assert_eq!((f.id, f.invocations, f.created_at, f.updated_at), (5, 0, 100, 100));
    f.record_invocation();
    f.record_invocation();
    let g = Function::upserted(Some(f), spec("v2"), 6, 200);
    assert_eq!((g.id, g.invocations, g.created_at, g.updated_at), (5, 2, 100, 200));
    assert_eq!(g.spec.code, "v2");
}

#[test]
fn dataset_totals_accumulate_across_ingests() {
    let d = Dataset::ingested(None, "events".into(), 10, 2048, 1);
    let d = Dataset::ingested(Some(d), "events".into(), 5, 1024, 2);
    assert_eq!((d.records, d.bytes, d.created_at, d.updated_at), (15, 3072, 1, 2));
    assert_eq!(d.name, "events");
}

#[test]
fn stats_count_pending_runs_as_running() {
    let s = Stats::from_counts(1, 2, 3, 10, 4, 1, 3, 2, 15, 3072);
    assert_eq!(s.runs_running, 5);
    assert_eq!(s.runs_completed, 3);
    assert_eq!(s.records_ingested, 15);
}
