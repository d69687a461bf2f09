use cortex::dag::{topo_layers, validate_dag, DagError};
use cortex::json::Json;
use cortex::model::{Runtime, TaskSpec};

fn task(id: &str, deps: &[&str]) -> TaskSpec {
    TaskSpec {
        id: id.into(),
        name: None,
        runtime: Runtime::Python,
        code: String::new(),
        depends_on: deps.iter().map(|s| s.to_string()).collect(),
        params: Json::Null,
        timeout_secs: 300,
        retries: 0,
    }
}

#[test]
fn accepts_diamond() {
    let tasks = vec![
        task("a", &[]),
        task("b", &["a"]),
        task("c", &["a"]),
        task("d", &["b", "c"]),
    ];
    assert_eq!(validate_dag(&tasks), Ok(()));
    let layers = topo_layers(&tasks);
    assert_eq!(layers[0], vec!["a"]);
    assert_eq!(layers[2], vec!["d"]);
    let mut mid = layers[1].clone();
    mid.sort();
    assert_eq!(mid, vec!["b", "c"]);
}

#[test]
fn rejects_empty() {
    assert_eq!(validate_dag(&[]), Err(DagError::Empty));
}

#[test]
fn rejects_duplicate_ids() {
    let tasks = vec![task("a", &[]), task("a", &[])];
    assert_eq!(validate_dag(&tasks), Err(DagError::DuplicateTask("a".into())));
}

#[test]
fn rejects_unknown_dependency() {
    let tasks = vec![task("a", &["ghost"])];
    assert!(matches!(
        validate_dag(&tasks),
        Err(DagError::UnknownDependency { .. })
    ));
}

#[test]
fn rejects_self_dependency() {
    let tasks = vec![task("a", &["a"])];
    assert_eq!(validate_dag(&tasks), Err(DagError::SelfDependency("a".into())));
}

#[test]
fn rejects_cycle() {
    let tasks = vec![task("a", &["b"]), task("b", &["a"]), task("c", &[])];
    match validate_dag(&tasks) {
        Err(DagError::Cycle(ids)) => assert_eq!(ids, vec!["a", "b"]),
        other => panic!("expected cycle, got {other:?}"),
    }
}

#[test]
fn layers_follow_dependency_depth() {
    // e depends on d (layer 2), so e sits in layer 3; a chain and a fan-in.
    let tasks = vec![
        task("e", &["d"]),
        task("c", &["a"]),
        task("d", &["b", "c"]),
        task("b", &["a"]),
        task("a", &[]),
        task("f", &[]),
    ];
    assert_eq!(validate_dag(&tasks), Ok(()));
    let layers = topo_layers(&tasks);
    assert_eq!(layers, vec![vec!["a", "f"], vec!["c", "b"], vec!["d"], vec!["e"]]);
}

#[test]
fn later_layers_follow_the_order_their_dependencies_finish() {
    // `a` runs before `b` in the first layer, so `d` (freed by `a`) comes
    // before `c` (freed by `b`), although `c` is listed first.
    let tasks = vec![task("a", &[]), task("b", &[]), task("c", &["b"]), task("d", &["a"])];
    let layers = topo_layers(&tasks);
    assert_eq!(layers, vec![vec!["a", "b"], vec!["d", "c"]]);
    // A task waits for the last of its dependencies in the layer before.
    let tasks = vec![
        task("a", &[]),
        task("b", &[]),
        task("x", &["b", "a"]),
        task("y", &["a"]),
    ];
    let layers = topo_layers(&tasks);
    assert_eq!(layers, vec![vec!["a", "b"], vec!["y", "x"]]);
}

#[test]
fn topo_layers_drops_tasks_behind_a_cycle() {
    let tasks = vec![task("x", &[]), task("a", &["b"]), task("b", &["a"]), task("c", &["a", "x"])];
    let layers = topo_layers(&tasks);
    assert_eq!(layers, vec![vec!["x"]]);
    match validate_dag(&tasks) {
        Err(DagError::Cycle(ids)) => assert_eq!(ids, vec!["a", "b", "c"]),
        other => panic!("expected cycle, got {other:?}"),
    }
}

#[test]
fn unknown_dependency_names_task_and_dependency() {
    let tasks = vec![task("a", &[]), task("b", &["a", "ghost"])];
    assert_eq!(
        validate_dag(&tasks),
        Err(DagError::UnknownDependency { task: "b".into(), dep: "ghost".into() })
    );
}

#[test]
fn first_bad_dependency_wins() {
    // The self-dependency of `b` comes before the unknown one of `c`.
    let tasks = vec![task("a", &[]), task("b", &["a", "b"]), task("c", &["zz"])];
    assert_eq!(validate_dag(&tasks), Err(DagError::SelfDependency("b".into())));
}

#[test]
fn dag_error_messages() {
    assert_eq!(DagError::Empty.message(), "workflow has no tasks");
    assert_eq!(DagError::DuplicateTask("a".into()).message(), "duplicate task id `a`");
    assert_eq!(
        DagError::UnknownDependency { task: "t".into(), dep: "d".into() }.message(),
        "task `t` depends on unknown task `d`"
    );
    assert_eq!(DagError::SelfDependency("s".into()).message(), "task `s` depends on itself");
    assert_eq!(
        DagError::Cycle(vec!["a".into(), "b".into()]).message(),
        "dependency cycle involving tasks: [\"a\", \"b\"]"
    );
}
