use cortex::isolation::{plan, ContainerConfig, Isolation, IsolationError, IsolationSettings};
use cortex::model::Runtime;

fn dirs() -> (String, String) {
    ("/host/shims".to_string(), "/host/job-1".to_string())
}

fn process_isolation() -> Isolation {
    Isolation::Process {
        python_bin: "python3".into(),
        node_bin: "node".into(),
    }
}

fn no_settings() -> IsolationSettings {
    IsolationSettings {
        mode: None,
        vm_runtime: None,
        container_engine: None,
        python_image: None,
        node_image: None,
        worker_memory: None,
        worker_cpus: None,
        python_bin: None,
        node_bin: None,
    }
}

#[test]
fn process_mode_runs_interpreter_directly() {
    let (shim, job) = dirs();
    let p = plan(&process_isolation(), Runtime::Python, &shim, &job, "job.py", "n1");
    assert_eq!(p.program, "python3");
    assert_eq!(p.args, vec!["/host/shims/worker.py"]);
    assert_eq!(p.entry, "/host/job-1/job.py");
    assert_eq!(p.container_name, None);
}

#[test]
fn process_mode_typescript_gets_strip_types() {
    let (shim, job) = dirs();
    let p = plan(&process_isolation(), Runtime::Typescript, &shim, &job, "job.ts", "n1");
    assert_eq!(p.program, "node");
    assert_eq!(
        p.args,
        vec![
            "--experimental-strip-types",
            "--no-warnings",
            "/host/shims/worker.mjs"
        ]
    );
    assert_eq!(p.entry, "/host/job-1/job.ts");
}

#[test]
fn container_mode_sandboxes_and_mounts() {
    let (shim, job) = dirs();
    let iso = Isolation::Container(ContainerConfig::default());
    let p = plan(&iso, Runtime::Python, &shim, &job, "job.py", "abc123");
    assert_eq!(p.program, "docker");
    let joined = p.args.join(" ");
    assert!(joined.starts_with("run --rm -i --name cortex-worker-abc123"));
    assert!(joined.contains("--network none"));
    assert!(joined.contains("--read-only"));
    assert!(joined.contains("--memory 512m"));
    assert!(joined.contains("--cpus 1"));
    assert!(joined.contains("-v /host/shims:/cortex/shim:ro"));
    assert!(joined.contains("-v /host/job-1:/cortex/job:ro"));
    assert!(joined.contains("python:3.12-slim python3 /cortex/shim/worker.py"));
    assert!(!joined.contains("--runtime"), "no runtime class unless configured");
    assert_eq!(p.entry, "/cortex/job/job.py");
    assert_eq!(p.container_name.as_deref(), Some("cortex-worker-abc123"));
}

#[test]
fn microvm_mode_selects_vm_runtime_class() {
    let (shim, job) = dirs();
    let iso = Isolation::MicroVm(ContainerConfig {
        runtime: Some("io.containerd.kata.v2".into()),
        ..ContainerConfig::default()
    });
    let p = plan(&iso, Runtime::Typescript, &shim, &job, "job.ts", "n9");
    let joined = p.args.join(" ");
    assert!(joined.contains("--runtime io.containerd.kata.v2"));
    assert!(joined.contains(
        "node:22-slim node --experimental-strip-types --no-warnings /cortex/shim/worker.mjs"
    ));
    assert_eq!(p.entry, "/cortex/job/job.ts");
}

#[test]
fn from_env_defaults_to_process() {
    let iso = Isolation::from_settings(&no_settings()).unwrap();
    assert_eq!(iso.mode_name(), "process");
    assert_eq!(iso, process_isolation());
}

#[test]
fn container_args_are_exact() {
    let iso = Isolation::Container(ContainerConfig::default());
    let p = plan(&iso, Runtime::Javascript, "/s", "/j", "job.mjs", "x");
    assert_eq!(
        p.args,
        vec![
            "run", "--rm", "-i", "--name", "cortex-worker-x", "--network", "none", "--read-only",
            "--tmpfs", "/tmp", "--pids-limit", "256", "--memory", "512m", "--cpus", "1", "-v",
            "/s:/cortex/shim:ro", "-v", "/j:/cortex/job:ro", "node:22-slim", "node",
            "/cortex/shim/worker.mjs"
        ]
    );
    assert_eq!(p.entry, "/cortex/job/job.mjs");
}

#[test]
fn settings_pick_mode_and_overrides() {
    let mut s = no_settings();
    s.mode = Some("microvm".into());
    s.container_engine = Some("podman".into());
    s.worker_memory = Some(String::new());
    match Isolation::from_settings(&s).unwrap() {
        Isolation::MicroVm(cfg) => {
            assert_eq!(cfg.engine, "podman");
            assert_eq!(cfg.runtime.as_deref(), Some("kata"));
            assert_eq!(cfg.memory, "512m", "an empty value counts as unset");
        }
        other => panic!("expected microvm, got {other:?}"),
    }
    s.mode = Some("container".into());
    assert_eq!(Isolation::from_settings(&s).unwrap().mode_name(), "container");
    s.mode = Some("vm".into());
    let err = Isolation::from_settings(&s).unwrap_err();
    assert_eq!(err, IsolationError::UnknownMode("vm".into()));
    assert_eq!(
        err.message(),
        "unknown CORTEX_ISOLATION `vm` (expected `process`, `container`, or `microvm`)"
    );
}

#[test]
fn process_entry_joins_like_path_join() {
    let shim = "/host/shims".to_string();
    for (job, file) in [("/host/job-1/", "job.py"), ("", "job.py"), ("/host/job-1", "/abs/job.py"), ("rel", "job.mjs")] {
        let p = plan(&process_isolation(), Runtime::Python, &shim, job, file, "n1");
        let expected = std::path::Path::new(job).join(file).to_string_lossy().into_owned();
        assert_eq!(p.entry, expected);
    }
    let p = plan(&process_isolation(), Runtime::Python, &shim, "/host/job-1/", "job.py", "n1");
    assert_eq!(p.entry, "/host/job-1/job.py");
}
