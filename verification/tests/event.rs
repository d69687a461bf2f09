use cortex::event::{CortexEvent, LoomEvent};
use cortex::json::Json;
use cortex::model::{Run, RunState, Runtime, TaskRun, TaskSpec, TriggerSpec, Workflow, WorkflowSpec};

fn sample_workflow() -> Workflow {
    Workflow {
        id: 5,
        spec: WorkflowSpec {
            name: "wf".into(),
            description: None,
            params: Json::Null,
            tasks: vec![],
            triggers: TriggerSpec::default(),
            max_parallel_tasks: 1,
        },
        created_at: 1_700_000_000_000,
        updated_at: 1_700_000_000_000,
    }
}

fn sample_task_run(run_id: u128) -> TaskRun {
    let spec = TaskSpec {
        id: "t".into(),
        name: None,
        runtime: Runtime::Python,
        code: String::new(),
        depends_on: vec![],
        params: Json::Null,
        timeout_secs: 1,
        retries: 0,
    };
    TaskRun::new(run_id, &spec)
}

#[test]
fn run_updated_carries_run_and_its_id() {
    let run = Run::new(&sample_workflow(), Json::Null, "manual".to_string());
    let expected = run.id;
    let ev = CortexEvent::run_updated(run);
    assert_eq!(ev.run_id(), Some(expected));
    assert!(matches!(ev, CortexEvent::RunUpdated { .. }));
}

#[test]
fn task_updated_run_id_comes_from_task() {
    let run_id: u128 = 0x67e5504410b1426f9247bb680e5fe0c8;
    let ev = CortexEvent::task_updated(sample_task_run(run_id));
    assert_eq!(ev.run_id(), Some(run_id));
}

#[test]
fn log_builder_accepts_str_and_string_and_keeps_run_id() {
    let run_id: u128 = 0x67e5504410b1426f9247bb680e5fe0c8;
    let ev = CortexEvent::log(run_id, "task-a".to_string(), String::from("hello"));
    match &ev {
        CortexEvent::Log { run_id: rid, task_id, line, .. } => {
            assert_eq!(*rid, run_id);
            assert_eq!(task_id, "task-a");
            assert_eq!(line, "hello");
        }
        other => panic!("expected Log, got {other:?}"),
    }
    assert_eq!(ev.run_id(), Some(run_id));
}

#[test]
fn ingested_and_function_invoked_have_no_run_id() {
    let ingested = CortexEvent::Ingested {
        ts: 1_700_000_000_000,
        dataset: "ds".into(),
        records: 3,
        bytes: 42,
    };
    assert_eq!(ingested.run_id(), None);
    let invoked = CortexEvent::FunctionInvoked {
        ts: 1_700_000_000_000,
        name: "fn".into(),
        ok: true,
        duration_ms: 12,
    };
    assert_eq!(invoked.run_id(), None);
}

#[test]
fn events_are_stamped_with_the_current_time() {
    let nanos = |t: chrono::DateTime<chrono::Utc>| t.timestamp() as i128 * 1_000_000_000 + t.timestamp_subsec_nanos() as i128;
    let before = nanos(chrono::Utc::now());
    let ev = CortexEvent::log(1, "t".to_string(), "l".to_string());
    let after = nanos(chrono::Utc::now());
    match ev {
        CortexEvent::Log { ts, .. } => assert!(before <= ts && ts <= after),
        _ => panic!("expected Log"),
    }
}

#[test]
fn loom_events_are_the_same_events() {
    let ev: LoomEvent = LoomEvent::log(9, "t".to_string(), "l".to_string());
    assert_eq!(ev.run_id(), Some(9));
    assert!(RunState::Completed.is_terminal());
}
