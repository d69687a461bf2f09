//! Pluggable workload isolation.
//!
//! Three tiers:
//!
//! - `process` (default) — workers are plain OS processes under the server's
//!   user. Fastest; right for trusted single-tenant deployments.
//! - `container` — each worker runs in a fresh container (`docker`/`podman
//!   run --rm -i`) with no network, a read-only rootfs, and memory/CPU/pid
//!   limits. The shim and job directories are bind-mounted read-only.
//! - `microvm` — same container interface, but executed by a VM-backed OCI
//!   runtime (Kata Containers, Firecracker via firecracker-containerd, or
//!   any runtime class exposing hardware virtualization).
//!
//! All tiers speak the same stdin/stdout JSON-lines protocol, so the
//! orchestrator is oblivious to the isolation level.

use vstd::prelude::*;
use vstd::string::StringExecFns;

use crate::model::Runtime;
use crate::text::{str_eq, texts};

verus! {

/// Where the shim directory is mounted inside containers and microVMs.
pub const GUEST_SHIM_DIR: &'static str = "/cortex/shim";

/// Where the job directory is mounted inside containers and microVMs.
pub const GUEST_JOB_DIR: &'static str = "/cortex/job";

/// How task workers are isolated.
#[derive(Debug, PartialEq, Eq)]
pub enum Isolation {
    /// Direct child processes of the server (default).
    Process { python_bin: String, node_bin: String },
    /// One container per task execution.
    Container(ContainerConfig),
    /// One microVM per task execution, via a VM-backed OCI runtime.
    MicroVm(ContainerConfig),
}

/// How containers are started.
#[derive(Debug, PartialEq, Eq)]
pub struct ContainerConfig {
    /// Container engine binary: `docker` or `podman`.
    pub engine: String,
    /// OCI runtime class. `None` uses the engine default; `microvm` mode
    /// requires a VM-backed runtime here (e.g. `kata`, `io.containerd.kata.v2`,
    /// `kata-fc` for the Firecracker VMM).
    pub runtime: Option<String>,
    pub python_image: String,
    pub node_image: String,
    /// Hard memory cap per worker, e.g. `512m`.
    pub memory: String,
    /// CPU quota per worker, e.g. `1` or `0.5`.
    pub cpus: String,
}

impl Default for ContainerConfig {
    fn default() -> (c: ContainerConfig)
        ensures
            c.engine@ == "docker"@,
            c.runtime is None,
            c.python_image@ == "python:3.12-slim"@,
            c.node_image@ == "node:22-slim"@,
            c.memory@ == "512m"@,
            c.cpus@ == "1"@,
    {
        ContainerConfig {
            engine: String::from_str("docker"),
            runtime: None,
            python_image: String::from_str("python:3.12-slim"),
            node_image: String::from_str("node:22-slim"),
            memory: String::from_str("512m"),
            cpus: String::from_str("1"),
        }
    }
}

/// An isolation mode that cannot be built.
#[derive(Debug, PartialEq, Eq)]
pub enum IsolationError {
    UnknownMode(String),
}

/// The message of an isolation error.
pub open spec fn isolation_error_text(e: IsolationError) -> Seq<char> {
    match e {
        IsolationError::UnknownMode(m) => "unknown CORTEX_ISOLATION `"@ + m@
            + "` (expected `process`, `container`, or `microvm`)"@,
    }
}

impl IsolationError {
    /// The human-readable message of this error.
    pub fn message(&self) -> (m: String)
        ensures
            m@ == isolation_error_text(*self),
    {
        match self {
            IsolationError::UnknownMode(mode) => {
                let m = String::from_str("unknown CORTEX_ISOLATION `").concat(mode.as_str());
                m.concat("` (expected `process`, `container`, or `microvm`)")
            },
        }
    }
}

/// The isolation settings read from the environment, each as its raw value.
pub struct IsolationSettings {
    /// `CORTEX_ISOLATION`
    pub mode: Option<String>,
    /// `CORTEX_VM_RUNTIME`
    pub vm_runtime: Option<String>,
    /// `CORTEX_CONTAINER_ENGINE`
    pub container_engine: Option<String>,
    /// `CORTEX_PYTHON_IMAGE`
    pub python_image: Option<String>,
    /// `CORTEX_NODE_IMAGE`
    pub node_image: Option<String>,
    /// `CORTEX_WORKER_MEMORY`
    pub worker_memory: Option<String>,
    /// `CORTEX_WORKER_CPUS`
    pub worker_cpus: Option<String>,
    /// `CORTEX_PYTHON_BIN`
    pub python_bin: Option<String>,
    /// `CORTEX_NODE_BIN`
    pub node_bin: Option<String>,
}

/// A setting's value, where an empty value counts as unset.
pub open spec fn setting(v: Option<String>) -> Option<Seq<char>> {
    match v {
        Some(s) => if s@.len() > 0 {
            Some(s@)
        } else {
            None
        },
        None => None,
    }
}

/// A setting's value, or `default` when it is unset.
pub open spec fn setting_or(v: Option<String>, default: Seq<char>) -> Seq<char> {
    match setting(v) {
        Some(s) => s,
        None => default,
    }
}

/// `c` is the default container configuration overridden by the settings,
/// with `runtime` as its runtime class.
pub open spec fn configured_container(c: ContainerConfig, s: IsolationSettings, runtime: Option<Seq<char>>) -> bool {
    &&& c.engine@ == setting_or(s.container_engine, "docker"@)
    &&& c.python_image@ == setting_or(s.python_image, "python:3.12-slim"@)
    &&& c.node_image@ == setting_or(s.node_image, "node:22-slim"@)
    &&& c.memory@ == setting_or(s.worker_memory, "512m"@)
    &&& c.cpus@ == setting_or(s.worker_cpus, "1"@)
    &&& match c.runtime {
        Some(r) => runtime == Some(r@),
        None => runtime is None,
    }
}

/// The value of a setting, where an empty value counts as unset.
fn read_setting(v: &Option<String>) -> (r: Option<String>)
    ensures
        match r {
            Some(s) => setting(*v) == Some(s@),
            None => setting(*v) is None,
        },
{
    match v {
        Some(s) => if s.as_str().is_empty() {
            None
        } else {
            Some(s.clone())
        },
        None => None,
    }
}

/// The value of a setting, or `default` when it is unset.
fn read_setting_or(v: &Option<String>, default: &str) -> (r: String)
    ensures
        r@ == setting_or(*v, default@),
{
    match read_setting(v) {
        Some(s) => s,
        None => String::from_str(default),
    }
}

impl Isolation {
    fn container_config(s: &IsolationSettings) -> (c: ContainerConfig)
        ensures
            configured_container(c, *s, setting(s.vm_runtime)),
    {
        ContainerConfig {
            engine: read_setting_or(&s.container_engine, "docker"),
            runtime: read_setting(&s.vm_runtime),
            python_image: read_setting_or(&s.python_image, "python:3.12-slim"),
            node_image: read_setting_or(&s.node_image, "node:22-slim"),
            memory: read_setting_or(&s.worker_memory, "512m"),
            cpus: read_setting_or(&s.worker_cpus, "1"),
        }
    }

    /// Build the isolation mode from its settings: `CORTEX_ISOLATION` picks
    /// the mode (`process` when unset); a microVM's runtime class defaults to
    /// `kata`.
    pub fn from_settings(s: &IsolationSettings) -> (r: Result<Isolation, IsolationError>)
        ensures
            setting_or(s.mode, "process"@) == "process"@ ==> (r matches Ok(
                Isolation::Process { python_bin, node_bin },
            ) && python_bin@ == setting_or(s.python_bin, "python3"@) && node_bin@ == setting_or(
                s.node_bin,
                "node"@,
            )),
            setting_or(s.mode, "process"@) == "container"@ ==> (r matches Ok(Isolation::Container(c))
                && configured_container(c, *s, setting(s.vm_runtime))),
            setting_or(s.mode, "process"@) == "microvm"@ ==> (r matches Ok(Isolation::MicroVm(c))
                && configured_container(c, *s, Some(setting_or(s.vm_runtime, "kata"@)))),
            setting_or(s.mode, "process"@) != "process"@ && setting_or(s.mode, "process"@) != "container"@
                && setting_or(s.mode, "process"@) != "microvm"@ ==> (r matches Err(
                IsolationError::UnknownMode(m),
            ) && m@ == setting_or(s.mode, "process"@)),
    {
        let mode = read_setting_or(&s.mode, "process");
        proof {
            reveal_strlit("process");
            reveal_strlit("container");
            reveal_strlit("microvm");
            assert("process"@.len() == 7 && "container"@.len() == 9 && "microvm"@.len() == 7);
            assert("process"@[0] != "microvm"@[0]);
        }
        if str_eq(mode.as_str(), "process") {
            Ok(Isolation::Process {
                python_bin: read_setting_or(&s.python_bin, "python3"),
                node_bin: read_setting_or(&s.node_bin, "node"),
            })
        } else if str_eq(mode.as_str(), "container") {
            Ok(Isolation::Container(Isolation::container_config(s)))
        } else if str_eq(mode.as_str(), "microvm") {
            let mut cfg = Isolation::container_config(s);
            // A microVM *is* the runtime class; default to Kata if unset.
            if cfg.runtime.is_none() {
                cfg.runtime = Some(String::from_str("kata"));
            }
            Ok(Isolation::MicroVm(cfg))
        } else {
            Err(IsolationError::UnknownMode(mode))
        }
    }

    pub fn mode_name(&self) -> (s: &'static str)
        ensures
            s@ == match self {
                Isolation::Process { .. } => "process"@,
                Isolation::Container(_) => "container"@,
                Isolation::MicroVm(_) => "microvm"@,
            },
    {
        match self {
            Isolation::Process { .. } => "process",
            Isolation::Container(_) => "container",
            Isolation::MicroVm(_) => "microvm",
        }
    }
}

/// Everything needed to spawn one worker.
#[derive(Debug, PartialEq, Eq)]
pub struct LaunchPlan {
    pub program: String,
    pub args: Vec<String>,
    /// The job entrypoint path *as the worker will see it* — host path in
    /// process mode, guest mount path in container/microVM modes.
    pub entry: String,
    /// Container name for container/microVM modes, so a timed-out worker can
    /// be killed by name (SIGKILLing the engine client alone can orphan it).
    pub container_name: Option<String>,
}

/// The path that joining `file` onto the directory `dir` gives, as
/// `Path::join` does on Unix: an absolute `file` (one starting with `/`)
/// replaces `dir`; otherwise `file` follows `dir`, with a `/` between them
/// unless `dir` is empty or already ends in one.
pub open spec fn joined_path(dir: Seq<char>, file: Seq<char>) -> Seq<char> {
    if file.len() > 0 && file[0] == '/' {
        file
    } else if dir.len() == 0 || dir.last() == '/' {
        dir + file
    } else {
        dir + "/"@ + file
    }
}

/// Join `file` onto the directory `dir`, as `Path::join` does on Unix.
pub(crate) fn join_path(dir: &str, file: &str) -> (r: String)
    ensures
        r@ == joined_path(dir@, file@),
{
    proof {
        reveal_strlit("/");
    }
    let fl = file.unicode_len();
    if fl > 0 && file.get_char(0) == '/' {
        return String::from_str(file);
    }
    let dl = dir.unicode_len();
    if dl == 0 || dir.get_char(dl - 1) == '/' {
        String::from_str(dir).concat(file)
    } else {
        String::from_str(dir).concat("/").concat(file)
    }
}

/// Append `s` to the list `v`.
fn push_text(v: &mut Vec<String>, s: &str)
    ensures
        texts(final(v)@) == texts(old(v)@).push(s@),
{
    let ghost before = v@;
    v.push(String::from_str(s));
    proof {
        assert(v@ == before.push(v@[before.len() as int]));
        assert(texts(v@) =~= texts(before).push(s@));
    }
}

/// The interpreter command line for a runtime, given the interpreters and
/// the shim directory that the worker sees.
pub open spec fn interpreter_argv(runtime: Runtime, python: Seq<char>, node: Seq<char>, shim_dir: Seq<char>) -> Seq<Seq<char>> {
    match runtime {
        Runtime::Python => seq![python, shim_dir + "/worker.py"@],
        Runtime::Javascript => seq![node, shim_dir + "/worker.mjs"@],
        Runtime::Typescript => seq![node, "--experimental-strip-types"@, "--no-warnings"@, shim_dir + "/worker.mjs"@],
    }
}

/// Interpreter argv for a runtime, given the shim path visible to the worker.
pub fn interpreter_args(runtime: Runtime, python: &str, node: &str, shim_dir: &str) -> (v: Vec<String>)
    ensures
        texts(v@) == interpreter_argv(runtime, python@, node@, shim_dir@),
{
    let mut v: Vec<String> = Vec::new();
    match runtime {
        Runtime::Python => {
            push_text(&mut v, python);
            let w = String::from_str(shim_dir).concat("/worker.py");
            push_text(&mut v, w.as_str());
        },
        Runtime::Javascript => {
            push_text(&mut v, node);
            let w = String::from_str(shim_dir).concat("/worker.mjs");
            push_text(&mut v, w.as_str());
        },
        Runtime::Typescript => {
            push_text(&mut v, node);
            push_text(&mut v, "--experimental-strip-types");
            push_text(&mut v, "--no-warnings");
            let w = String::from_str(shim_dir).concat("/worker.mjs");
            push_text(&mut v, w.as_str());
        },
    }
    proof {
        assert(texts(v@) =~= interpreter_argv(runtime, python@, node@, shim_dir@));
    }
    v
}

/// The image a container of this runtime runs.
pub open spec fn image_for(cfg: ContainerConfig, runtime: Runtime) -> Seq<char> {
    match runtime {
        Runtime::Python => cfg.python_image@,
        Runtime::Typescript | Runtime::Javascript => cfg.node_image@,
    }
}

/// The container engine's command line for one sandboxed worker called
/// `name`: no network, read-only rootfs with a `/tmp` tmpfs, pid, memory and
/// CPU caps, the runtime class if one is set, the shim and job directories
/// mounted read-only, then the image and the interpreter inside it.
pub open spec fn container_argv(
    cfg: ContainerConfig,
    runtime: Runtime,
    shim_dir: Seq<char>,
    job_dir: Seq<char>,
    name: Seq<char>,
) -> Seq<Seq<char>> {
    seq![
        "run"@, "--rm"@, "-i"@, "--name"@, name, "--network"@, "none"@, "--read-only"@,
        "--tmpfs"@, "/tmp"@, "--pids-limit"@, "256"@, "--memory"@, cfg.memory@, "--cpus"@, cfg.cpus@,
    ] + match cfg.runtime {
        Some(rt) => seq!["--runtime"@, rt@],
        None => Seq::empty(),
    } + seq![
        "-v"@, shim_dir + ":"@ + GUEST_SHIM_DIR@ + ":ro"@, "-v"@, job_dir + ":"@ + GUEST_JOB_DIR@ + ":ro"@,
        image_for(cfg, runtime),
    ] + interpreter_argv(runtime, "python3"@, "node"@, GUEST_SHIM_DIR@)
}

/// `p` is the launch plan for one execution.
pub open spec fn is_plan(
    isolation: Isolation,
    runtime: Runtime,
    shim_dir: Seq<char>,
    job_dir: Seq<char>,
    job_file: Seq<char>,
    nonce: Seq<char>,
    p: LaunchPlan,
) -> bool {
    match isolation {
        Isolation::Process { python_bin, node_bin } => {
            let argv = interpreter_argv(runtime, python_bin@, node_bin@, shim_dir);
            &&& p.program@ == argv[0]
            &&& texts(p.args@) == argv.drop_first()
            &&& p.entry@ == joined_path(job_dir, job_file)
            &&& p.container_name is None
        },
        Isolation::Container(cfg) | Isolation::MicroVm(cfg) => {
            let name = "cortex-worker-"@ + nonce;
            &&& p.program@ == cfg.engine@
            &&& texts(p.args@) == container_argv(cfg, runtime, shim_dir, job_dir, name)
            &&& p.entry@ == GUEST_JOB_DIR@ + "/"@ + job_file
            &&& p.container_name matches Some(n) && n@ == name
        },
    }
}

/// In process mode a job runs in the interpreter of its own runtime: a
/// Python job in `python_bin` with the shim `worker.py`, a JavaScript or
/// TypeScript job in `node_bin` with the shim `worker.mjs` (TypeScript with
/// type stripping), all from the host's shim directory; the entry is the
/// job's file in its directory.
pub proof fn lemma_process_plan_uses_job_runtime(
    isolation: Isolation,
    runtime: Runtime,
    shim_dir: Seq<char>,
    job_dir: Seq<char>,
    job_file: Seq<char>,
    nonce: Seq<char>,
    p: LaunchPlan,
)
    requires
        isolation is Process,
        is_plan(isolation, runtime, shim_dir, job_dir, job_file, nonce, p),
    ensures
        p.container_name is None,
        runtime is Python ==> p.program@ == isolation->python_bin@ && texts(p.args@) == seq![shim_dir + "/worker.py"@],
        runtime is Javascript ==> p.program@ == isolation->node_bin@ && texts(p.args@) == seq![shim_dir + "/worker.mjs"@],
        runtime is Typescript ==> p.program@ == isolation->node_bin@ && texts(p.args@) == seq![
            "--experimental-strip-types"@,
            "--no-warnings"@,
            shim_dir + "/worker.mjs"@,
        ],
{
    let argv = interpreter_argv(runtime, isolation->python_bin@, isolation->node_bin@, shim_dir);
    assert(argv.drop_first() =~= argv.subrange(1, argv.len() as int));
    if runtime is Typescript {
        assert(argv.drop_first() =~= seq!["--experimental-strip-types"@, "--no-warnings"@, shim_dir + "/worker.mjs"@]);
    } else if runtime is Python {
        assert(argv.drop_first() =~= seq![shim_dir + "/worker.py"@]);
    } else {
        assert(argv.drop_first() =~= seq![shim_dir + "/worker.mjs"@]);
    }
}

/// In a container or microVM a job also runs in the interpreter of its own
/// runtime, from the guest's shim mount: the command ends with `python3`
/// and the guest `worker.py` for a Python job, and with `node` (TypeScript:
/// with type stripping) and the guest `worker.mjs` for a JavaScript or
/// TypeScript job, in the image for that runtime.
pub proof fn lemma_container_plan_uses_job_runtime(
    isolation: Isolation,
    runtime: Runtime,
    shim_dir: Seq<char>,
    job_dir: Seq<char>,
    job_file: Seq<char>,
    nonce: Seq<char>,
    p: LaunchPlan,
)
    requires
        !(isolation is Process),
        is_plan(isolation, runtime, shim_dir, job_dir, job_file, nonce, p),
    ensures
        ({
            let a = texts(p.args@);
            &&& runtime is Python ==> a.len() >= 2 && a[a.len() - 2] == "python3"@ && a.last() == GUEST_SHIM_DIR@
                + "/worker.py"@
            &&& runtime is Javascript ==> a.len() >= 2 && a[a.len() - 2] == "node"@ && a.last() == GUEST_SHIM_DIR@
                + "/worker.mjs"@
            &&& runtime is Typescript ==> a.len() >= 4 && a[a.len() - 4] == "node"@ && a[a.len() - 3]
                == "--experimental-strip-types"@ && a.last() == GUEST_SHIM_DIR@ + "/worker.mjs"@
        }),
{
    let cfg = match isolation {
        Isolation::Container(c) => c,
        Isolation::MicroVm(c) => c,
        Isolation::Process { .. } => arbitrary(),
    };
    let name = "cortex-worker-"@ + nonce;
    let a = texts(p.args@);
    let tail = interpreter_argv(runtime, "python3"@, "node"@, GUEST_SHIM_DIR@);
    assert(a == container_argv(cfg, runtime, shim_dir, job_dir, name));
    let head = a.subrange(0, a.len() - tail.len());
    assert(a.subrange(a.len() - tail.len(), a.len() as int) =~= tail);
    assert forall|k: int| 0 <= k < tail.len() implies a[a.len() - tail.len() + k] == tail[k] by {
        assert(a.subrange(a.len() - tail.len(), a.len() as int)[k] == a[a.len() - tail.len() + k]);
    }
}

/// Build the launch plan for one execution.
///
/// `job_file` is the code file name inside `job_dir` (`job.py`, `job.ts`,
/// `job.mjs`); `nonce` uniquifies the container name.
pub fn plan(
    isolation: &Isolation,
    runtime: Runtime,
    shim_dir: &str,
    job_dir: &str,
    job_file: &str,
    nonce: &str,
) -> (p: LaunchPlan)
    ensures
        is_plan(*isolation, runtime, shim_dir@, job_dir@, job_file@, nonce@, p),
{
    match isolation {
        Isolation::Process { python_bin, node_bin } => {
            let mut argv = interpreter_args(runtime, python_bin.as_str(), node_bin.as_str(), shim_dir);
            let ghost all = texts(argv@);
            assert(all.len() >= 2 && argv@.len() == all.len());
            let program = argv.remove(0);
            proof {
                assert(texts(argv@) =~= all.drop_first());
            }
            LaunchPlan {
                program,
                args: argv,
                entry: join_path(job_dir, job_file),
                container_name: None,
            }
        },
        Isolation::Container(cfg) | Isolation::MicroVm(cfg) => {
            let name = String::from_str("cortex-worker-").concat(nonce);
            let mut args: Vec<String> = Vec::new();
            push_text(&mut args, "run");
            push_text(&mut args, "--rm");
            push_text(&mut args, "-i");
            push_text(&mut args, "--name");
            push_text(&mut args, name.as_str());
            push_text(&mut args, "--network");
            push_text(&mut args, "none");
            push_text(&mut args, "--read-only");
            push_text(&mut args, "--tmpfs");
            push_text(&mut args, "/tmp");
            push_text(&mut args, "--pids-limit");
            push_text(&mut args, "256");
            push_text(&mut args, "--memory");
            push_text(&mut args, cfg.memory.as_str());
            push_text(&mut args, "--cpus");
            push_text(&mut args, cfg.cpus.as_str());
            let ghost head = texts(args@);
            if let Some(rt) = &cfg.runtime {
                push_text(&mut args, "--runtime");
                push_text(&mut args, rt.as_str());
            }
            let ghost with_runtime = texts(args@);
            push_text(&mut args, "-v");
            let shim_mount = String::from_str(shim_dir).concat(":").concat(GUEST_SHIM_DIR).concat(":ro");
            push_text(&mut args, shim_mount.as_str());
            push_text(&mut args, "-v");
            let job_mount = String::from_str(job_dir).concat(":").concat(GUEST_JOB_DIR).concat(":ro");
            push_text(&mut args, job_mount.as_str());
            let image = match runtime {
                Runtime::Python => cfg.python_image.as_str(),
                Runtime::Typescript | Runtime::Javascript => cfg.node_image.as_str(),
            };
            push_text(&mut args, image);
            let ghost before_interp = args@;
            // Images ship the interpreter on PATH as python3 / node.
            let mut interp = interpreter_args(runtime, "python3", "node", GUEST_SHIM_DIR);
            args.append(&mut interp);
            proof {
                let spec_args = container_argv(*cfg, runtime, shim_dir@, job_dir@, name@);
                assert(head =~= seq![
                    "run"@, "--rm"@, "-i"@, "--name"@, name@, "--network"@, "none"@, "--read-only"@,
                    "--tmpfs"@, "/tmp"@, "--pids-limit"@, "256"@, "--memory"@, cfg.memory@, "--cpus"@, cfg.cpus@,
                ]);
                assert(with_runtime =~= head + match cfg.runtime {
                    Some(rt) => seq!["--runtime"@, rt@],
                    None => Seq::<Seq<char>>::empty(),
                });
                assert(texts(args@) =~= texts(before_interp) + interpreter_argv(runtime, "python3"@, "node"@, GUEST_SHIM_DIR@));
                assert(texts(args@) =~= spec_args);
            }
            let entry = String::from_str(GUEST_JOB_DIR).concat("/").concat(job_file);
            LaunchPlan { program: cfg.engine.clone(), args, entry, container_name: Some(name) }
        },
    }
}

} // verus!
