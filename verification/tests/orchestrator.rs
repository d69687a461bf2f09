use cortex::exec::{ExecError, ExecOutcome};
use cortex::json::Json;
use cortex::model::{RunState, Runtime, TaskRun, TaskSpec, TriggerSpec, Workflow, WorkflowSpec};
use cortex::orchestrator::{
    after_attempt, begin_task, cancel_unreached, gather_inputs, max_attempts, merge_params, prepare_launch,
    take_task_run, AttemptVerdict, RunDriver, RunStep, TaskOutcome,
};

fn obj(entries: &[(&str, Json)]) -> Json {
    Json::Object(entries.iter().map(|(k, v)| (k.to_string(), v.deep_copy())).collect())
}

fn num(n: &str) -> Json {
    Json::Number(n.into())
}

#[test]
fn overlay_wins_key_by_key() {
    let merged = merge_params(
        &obj(&[("a", num("1")), ("b", num("2"))]),
        &obj(&[("b", num("3")), ("c", num("4"))]),
    );
    assert_eq!(merged, obj(&[("a", num("1")), ("b", num("3")), ("c", num("4"))]));
}

#[test]
fn null_overlay_keeps_base() {
    let merged = merge_params(&obj(&[("a", num("1"))]), &Json::Null);
    assert_eq!(merged, obj(&[("a", num("1"))]));
}

#[test]
fn non_object_overlay_replaces_base() {
    assert_eq!(merge_params(&obj(&[("a", num("1"))]), &num("7")), num("7"));
    assert_eq!(merge_params(&Json::Null, &obj(&[("a", num("1"))])), obj(&[("a", num("1"))]));
}

fn task(id: &str, deps: &[&str]) -> TaskSpec {
    TaskSpec {
        id: id.into(),
        name: None,
        runtime: Runtime::Python,
        code: String::new(),
        depends_on: deps.iter().map(|s| s.to_string()).collect(),
        params: Json::Null,
        timeout_secs: 300,
        retries: 0,
    }
}

fn launched_ids(step: &RunStep) -> Vec<String> {
    match step {
        RunStep::Execute(ls) => ls.iter().map(|l| l.task_id.clone()).collect(),
        other => panic!("expected launches, got {other:?}"),
    }
}

#[test]
fn driver_walks_layers_and_feeds_results_downstream() {
    let tasks = vec![task("a", &[]), task("b", &["a"]), task("c", &["a"]), task("d", &["b", "c"])];
    let params = obj(&[("n", num("1"))]);
    let mut d = RunDriver::new(&tasks);

    let s1 = d.next_step(&params, &tasks);
    assert_eq!(launched_ids(&s1), vec!["a"]);
    if let RunStep::Execute(ls) = &s1 {
        assert_eq!(ls[0].inputs, Json::Object(vec![]));
        assert_eq!(ls[0].params, params);
    }
    d.finish_layer(vec![TaskOutcome::Succeeded(num("10"))]);

    let s2 = d.next_step(&params, &tasks);
    assert_eq!(launched_ids(&s2), vec!["b", "c"]);
    if let RunStep::Execute(ls) = &s2 {
        assert_eq!(ls[0].inputs, obj(&[("a", num("10"))]));
        assert_eq!(ls[1].task_index, 2);
    }
    d.finish_layer(vec![TaskOutcome::Succeeded(num("20")), TaskOutcome::Succeeded(num("30"))]);

    let s3 = d.next_step(&params, &tasks);
    if let RunStep::Execute(ls) = &s3 {
        assert_eq!(ls[0].task_id, "d");
        assert_eq!(ls[0].inputs, obj(&[("b", num("20")), ("c", num("30"))]));
    } else {
        panic!("expected d to launch");
    }
    d.finish_layer(vec![TaskOutcome::Succeeded(Json::Null)]);

    match d.next_step(&params, &tasks) {
        RunStep::Finish { state, error } => {
            assert_eq!(state, RunState::Completed);
            assert_eq!(error, None);
        }
        other => panic!("expected finish, got {other:?}"),
    }
}

#[test]
fn a_failed_layer_stops_the_run_with_the_last_failure() {
    let tasks = vec![task("a", &[]), task("b", &[]), task("c", &["a"])];
    let mut d = RunDriver::new(&tasks);
    let s = d.next_step(&Json::Null, &tasks);
    assert_eq!(launched_ids(&s), vec!["a", "b"]);
    d.finish_layer(vec![TaskOutcome::Failed("boom".into()), TaskOutcome::Crashed("join error".into())]);
    match d.next_step(&Json::Null, &tasks) {
        RunStep::Finish { state, error } => {
            assert_eq!(state, RunState::Failed);
            assert_eq!(error.as_deref(), Some("task panicked: join error"));
        }
        other => panic!("expected finish, got {other:?}"),
    }

    let mut d = RunDriver::new(&tasks);
    d.next_step(&Json::Null, &tasks);
    d.finish_layer(vec![TaskOutcome::Succeeded(Json::Null), TaskOutcome::Failed("boom".into())]);
    match d.next_step(&Json::Null, &tasks) {
        RunStep::Finish { error, .. } => assert_eq!(error.as_deref(), Some("task `b` failed: boom")),
        other => panic!("expected finish, got {other:?}"),
    }
}

#[test]
fn task_params_overlay_run_params() {
    let mut t = task("a", &[]);
    t.params = obj(&[("x", num("2"))]);
    let tasks = vec![t];
    let mut d = RunDriver::new(&tasks);
    let s = d.next_step(&obj(&[("x", num("1")), ("y", num("3"))]), &tasks);
    if let RunStep::Execute(ls) = s {
        assert_eq!(ls[0].params, obj(&[("x", num("2")), ("y", num("3"))]));
    } else {
        panic!("expected launch");
    }
}

#[test]
fn inputs_skip_dependencies_without_results() {
    let deps = vec!["a".to_string(), "missing".to_string(), "a".to_string()];
    let results = vec![("a".to_string(), num("1")), ("z".to_string(), num("2"))];
    assert_eq!(gather_inputs(&deps, &results), obj(&[("a", num("1"))]));
}

fn fresh_row() -> TaskRun {
    TaskRun::new_with_id(1, 2, &task("t", &[]))
}

#[test]
fn retries_until_the_last_attempt() {
    let mut t = task("t", &[]);
    t.retries = 1;
    assert_eq!(max_attempts(&t), 2);

    let mut tr = fresh_row();
    begin_task(&mut tr, 100);
    assert_eq!(tr.state, RunState::Running);
    assert_eq!(tr.started_at, Some(100));

    let err = ExecError::Workload { message: "boom".into(), trace: "Traceback\n\n  line 3\r\n".into() };
    match after_attempt(&mut tr, 1, 2, vec!["out".into()], Err(err), 150) {
        AttemptVerdict::Retry(line) => assert_eq!(line, "attempt 1/2 failed (boom); retrying"),
        other => panic!("expected retry, got {other:?}"),
    }
    assert_eq!(tr.attempts, 1);
    assert_eq!(tr.state, RunState::Running);
    assert_eq!(tr.error.as_deref(), Some("boom"));
    assert_eq!(tr.logs, vec!["out", "[trace] Traceback", "[trace]   line 3"]);

    match after_attempt(&mut tr, 2, 2, vec![], Err(ExecError::Timeout(9)), 200) {
        AttemptVerdict::GaveUp(m) => assert_eq!(m, "workload timed out after 9s"),
        other => panic!("expected give-up, got {other:?}"),
    }
    assert_eq!(tr.state, RunState::Failed);
    assert_eq!(tr.finished_at, Some(200));
    assert_eq!(tr.attempts, 2);
}

#[test]
fn success_completes_the_task() {
    let mut tr = fresh_row();
    let outcome = ExecOutcome { value: num("8"), logs: vec![], duration_ms: 3 };
    match after_attempt(&mut tr, 1, 1, vec!["crunching".into()], Ok(outcome), 50) {
        AttemptVerdict::Succeeded(v) => assert_eq!(v, num("8")),
        other => panic!("expected success, got {other:?}"),
    }
    assert_eq!(tr.state, RunState::Completed);
    assert_eq!(tr.result, Some(num("8")));
    assert_eq!(tr.finished_at, Some(50));
    assert_eq!(tr.logs, vec!["crunching"]);
}

#[test]
fn unreached_rows_are_cancelled() {
    let mut rows = vec![fresh_row(), fresh_row(), fresh_row()];
    rows[1].state = RunState::Completed;
    rows[2].state = RunState::Running;
    let changed = cancel_unreached(&mut rows, 999);
    assert_eq!(changed, vec![0, 2]);
    assert_eq!(rows[0].state, RunState::Cancelled);
    assert_eq!(rows[0].finished_at, Some(999));
    assert_eq!(rows[1].state, RunState::Completed);
    assert_eq!(rows[1].finished_at, None);
    assert_eq!(rows[2].state, RunState::Cancelled);
}

#[test]
fn task_rows_are_taken_by_task_id() {
    let mut rows = vec![TaskRun::new_with_id(5, 2, &task("x", &[])), TaskRun::new_with_id(6, 2, &task("y", &[]))];
    let got = take_task_run(&mut rows, 2, &task("y", &[]));
    assert_eq!(got.id, 6);
    assert_eq!(rows.len(), 1);
    let fresh = take_task_run(&mut rows, 2, &task("z", &[]));
    assert_eq!(fresh.task_id, "z");
    assert_eq!(fresh.state, RunState::Pending);
    assert_eq!(rows.len(), 1);
}

#[test]
fn launch_prepares_a_pending_run_with_rows() {
    let wf = Workflow {
        id: 42,
        spec: WorkflowSpec {
            name: "etl".into(),
            description: None,
            params: obj(&[("batch", num("100"))]),
            tasks: vec![task("a", &[]), task("b", &["a"])],
            triggers: TriggerSpec::default(),
            max_parallel_tasks: 8,
        },
        created_at: 0,
        updated_at: 0,
    };
    let (run, rows) = prepare_launch(&wf, &obj(&[("batch", num("5"))]), "manual".into());
    assert_eq!(run.state, RunState::Pending);
    assert_eq!(run.workflow_id, 42);
    assert_eq!(run.params, obj(&[("batch", num("5"))]));
    assert_eq!(run.trigger, "manual");
    assert_eq!(rows.len(), 2);
    assert!(rows.iter().all(|r| r.run_id == run.id && r.state == RunState::Pending));
    assert_eq!(rows[1].task_id, "b");
}

#[test]
fn a_row_only_moves_forward_through_a_failed_run() {
    // Pending -> running -> (retry) running -> failed; a later cancellation
    // of the run's unreached rows leaves it failed, and cancels a row the
    // run never started.
    let mut started = fresh_row();
    assert_eq!(started.state, RunState::Pending);
    begin_task(&mut started, 10);
    assert_eq!(started.state, RunState::Running);
    after_attempt(&mut started, 1, 2, vec![], Err(ExecError::Timeout(1)), 20);
    assert_eq!(started.state, RunState::Running);
    after_attempt(&mut started, 2, 2, vec![], Err(ExecError::Timeout(1)), 30);
    assert_eq!(started.state, RunState::Failed);
    let mut rows = vec![started, fresh_row()];
    let changed = cancel_unreached(&mut rows, 40);
    assert_eq!(changed, vec![1]);
    assert_eq!(rows[0].state, RunState::Failed);
    assert_eq!(rows[0].finished_at, Some(30));
    assert_eq!(rows[1].state, RunState::Cancelled);
}
