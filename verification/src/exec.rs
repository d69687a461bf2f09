//! The executor's decisions: what a worker is asked, how its stream of
//! events becomes a result, when a pooled worker may be reused, and how
//! failures read.
//!
//! Running the worker processes themselves (spawning, piping, timing out)
//! happens around this module; every choice made along the way is here.

use vstd::prelude::*;
use vstd::string::StringExecFns;

use crate::isolation::{join_path, joined_path, Isolation};
use crate::json::{keys_distinct, lemma_members_view_index, members_view, member, Json, JsonV};
use crate::model::Runtime;
use crate::text::{blank, dec_text, decimal, is_blank, strip_prefix};

verus! {

/// Why an execution produced no value.
#[derive(Debug, PartialEq, Eq)]
pub enum ExecError {
    /// The executor could not be set up.
    Init(String),
    /// The worker process could not be started or talked to.
    Spawn(String),
    /// The workload itself raised an error.
    Workload { message: String, trace: String },
    /// The workload ran past its time limit, in seconds.
    Timeout(u64),
    /// The worker ended its output without a result.
    NoResult,
    /// The worker wrote a line that is not a valid event.
    Protocol(String),
}

/// The message of an execution error.
pub open spec fn exec_error_text(e: ExecError) -> Seq<char> {
    match e {
        ExecError::Init(m) => "executor init failed: "@ + m@,
        ExecError::Spawn(m) => "failed to spawn worker: "@ + m@,
        ExecError::Workload { message, .. } => "workload failed: "@ + message@,
        ExecError::Timeout(n) => "workload timed out after "@ + dec_text(n as nat) + "s"@,
        ExecError::NoResult => "worker exited without producing a result"@,
        ExecError::Protocol(m) => "malformed worker event: "@ + m@,
    }
}

impl ExecError {
    /// The human-readable message of this error.
    pub fn message(&self) -> (m: String)
        ensures
            m@ == exec_error_text(*self),
    {
        match self {
            ExecError::Init(m) => String::from_str("executor init failed: ").concat(m.as_str()),
            ExecError::Spawn(m) => String::from_str("failed to spawn worker: ").concat(m.as_str()),
            ExecError::Workload { message, .. } => String::from_str("workload failed: ").concat(
                message.as_str(),
            ),
            ExecError::Timeout(n) => {
                let d = decimal(*n);
                String::from_str("workload timed out after ").concat(d.as_str()).concat("s")
            },
            ExecError::NoResult => String::from_str("worker exited without producing a result"),
            ExecError::Protocol(m) => String::from_str("malformed worker event: ").concat(m.as_str()),
        }
    }
}

/// How a failed execution is reported on a task: a workload error by its
/// own message, anything else by the error's message.
pub open spec fn described(e: ExecError) -> Seq<char> {
    match e {
        ExecError::Workload { message, .. } => message@,
        _ => exec_error_text(e),
    }
}

/// The text a task records for a failed execution.
pub fn describe(err: &ExecError) -> (s: String)
    ensures
        s@ == described(*err),
{
    match err {
        ExecError::Workload { message, .. } => message.clone(),
        other => other.message(),
    }
}

/// A single unit of work to execute.
#[derive(Debug)]
pub struct ExecRequest {
    pub runtime: Runtime,
    pub code: String,
    /// Free-form parameters, passed as the handler's first argument.
    pub params: Json,
    /// Upstream task results keyed by task id, passed as the second argument.
    pub inputs: Json,
    pub timeout_secs: u64,
}

/// What a successful execution produced.
#[derive(Debug)]
pub struct ExecOutcome {
    pub value: Json,
    pub logs: Vec<String>,
    /// Wall-clock time of the execution, in milliseconds.
    pub duration_ms: u64,
}

/// One line of a worker's output.
#[derive(Debug, PartialEq)]
pub enum WorkerEvent {
    Log { line: String },
    Result { value: Json },
    Error { message: String, trace: String },
}

/// The name of the file the job's code is written to.
pub open spec fn job_file_text(runtime: Runtime) -> Seq<char> {
    match runtime {
        Runtime::Python => "job.py"@,
        Runtime::Typescript => "job.ts"@,
        Runtime::Javascript => "job.mjs"@,
    }
}

/// The file name for a runtime's job code (`job.py` / `job.ts` / `job.mjs`).
pub fn job_file_name(runtime: Runtime) -> (s: &'static str)
    ensures
        s@ == job_file_text(runtime),
{
    match runtime {
        Runtime::Python => "job.py",
        Runtime::Typescript => "job.ts",
        Runtime::Javascript => "job.mjs",
    }
}

/// How long a job may run, in seconds: its timeout, and at least one second.
pub fn time_limit_secs(timeout_secs: u64) -> (t: u64)
    ensures
        t == if timeout_secs < 1 { 1 } else { timeout_secs },
{
    if timeout_secs < 1 {
        1
    } else {
        timeout_secs
    }
}

/// The prefix of a job directory's name.
pub const JOB_DIR_PREFIX: &'static str = "cortex-job-";

/// The container-name nonce for a job directory: the unique suffix of its
/// name after `cortex-job-`, or `0` when the name has another shape.
pub open spec fn nonce_of(dir_name: Option<Seq<char>>) -> Seq<char> {
    match dir_name {
        Some(n) => if n.len() >= JOB_DIR_PREFIX@.len() && n.subrange(0, JOB_DIR_PREFIX@.len() as int)
            == JOB_DIR_PREFIX@ {
            n.subrange(JOB_DIR_PREFIX@.len() as int, n.len() as int)
        } else {
            "0"@
        },
        None => "0"@,
    }
}

/// The nonce that names a job's container, from its directory's name.
pub fn container_nonce(dir_name: Option<&str>) -> (s: String)
    ensures
        s@ == nonce_of(
            match dir_name {
                Some(n) => Some(n@),
                None => None,
            },
        ),
{
    match dir_name {
        Some(n) => match strip_prefix(n, JOB_DIR_PREFIX) {
            Some(rest) => String::from_str(rest),
            None => String::from_str("0"),
        },
        None => String::from_str("0"),
    }
}

/// The request a worker is sent: the job's entry file, its parameters and
/// its inputs.
pub open spec fn is_request(entry: Seq<char>, params: JsonV, inputs: JsonV, r: JsonV) -> bool {
    &&& r is Object
    &&& keys_distinct(r->Object_0)
    &&& member(r->Object_0, "entry"@) == Some(JsonV::Str(entry))
    &&& member(r->Object_0, "params"@) == Some(params)
    &&& member(r->Object_0, "inputs"@) == Some(inputs)
    &&& r->Object_0.len() == 3
}

/// The request document for a job whose code is at `entry`.
pub fn request_document(entry: String, params: &Json, inputs: &Json) -> (r: Json)
    ensures
        is_request(entry@, params@, inputs@, r@),
{
    let ghost e = entry@;
    let members: Vec<(String, Json)> = vec![
        (String::from_str("entry"), Json::Str(entry)),
        (String::from_str("params"), params.deep_copy()),
        (String::from_str("inputs"), inputs.deep_copy()),
    ];
    proof {
        lemma_members_view_index(members@);
        let m = members_view(members@);
        reveal_strlit("entry");
        reveal_strlit("params");
        reveal_strlit("inputs");
        assert(m[0].0 == "entry"@ && m[1].0 == "params"@ && m[2].0 == "inputs"@);
        assert("entry"@ != "params"@ && "entry"@ != "inputs"@ && "params"@ != "inputs"@) by {
            assert("entry"@.len() == 5 && "params"@.len() == 6 && "inputs"@.len() == 6);
            assert("params"@[0] != "inputs"@[0]);
        }
        assert(crate::json::is_first_key(m, "entry"@, 0));
        assert(crate::json::is_first_key(m, "params"@, 1));
        assert(crate::json::is_first_key(m, "inputs"@, 2));
        crate::json::lemma_member_at(m, "entry"@, 0);
        crate::json::lemma_member_at(m, "params"@, 1);
        crate::json::lemma_member_at(m, "inputs"@, 2);
    }
    Json::Object(members)
}

/// The request document for a job on a pooled worker, whose code sits in
/// `job_file` inside the directory `job_dir`.
pub fn pooled_request(job_dir: &str, job_file: &str, params: &Json, inputs: &Json) -> (r: Json)
    ensures
        is_request(joined_path(job_dir@, job_file@), params@, inputs@, r@),
{
    request_document(join_path(job_dir, job_file), params, inputs)
}

/// The error for a worker line that did not parse: the parser's complaint,
/// then the line.
pub fn protocol_error(detail: &str, line: &str) -> (e: ExecError)
    ensures
        e matches ExecError::Protocol(m) && m@ == detail@ + ": "@ + line@,
{
    ExecError::Protocol(String::from_str(detail).concat(": ").concat(line))
}

/// A line the worker wrote to its error stream, as a log line: tagged, and
/// dropped when blank.
pub fn stderr_log_line(line: &str) -> (r: Option<String>)
    ensures
        blank(line@) ==> r is None,
        !blank(line@) ==> (r matches Some(t) && t@ == "[stderr] "@ + line@),
{
    if is_blank(line) {
        None
    } else {
        Some(String::from_str("[stderr] ").concat(line))
    }
}

/// What a one-shot worker has reported so far.
pub struct EventLog {
    /// The log lines, in order.
    pub logs: Vec<String>,
    /// The last result or error reported, if any.
    pub result: Option<Result<Json, ExecError>>,
}

impl EventLog {
    /// Nothing reported yet.
    pub fn new() -> (l: EventLog)
        ensures
            l.logs@.len() == 0,
            l.result is None,
    {
        EventLog { logs: Vec::new(), result: None }
    }

    /// Take in one event of a one-shot worker. A log line is kept and
    /// returned to be streamed; a later result or error replaces an earlier
    /// one.
    pub fn record(&mut self, ev: WorkerEvent) -> (forward: Option<String>)
        ensures
            match ev {
                WorkerEvent::Log { line } => {
                    &&& final(self).logs@ == old(self).logs@.push(line)
                    &&& final(self).result == old(self).result
                    &&& forward matches Some(f) && f@ == line@
                },
                WorkerEvent::Result { value } => {
                    &&& final(self).logs@ == old(self).logs@
                    &&& final(self).result == Some(Ok::<Json, ExecError>(value))
                    &&& forward is None
                },
                WorkerEvent::Error { message, trace } => {
                    &&& final(self).logs@ == old(self).logs@
                    &&& final(self).result == Some(
                        Err::<Json, ExecError>(ExecError::Workload { message, trace }),
                    )
                    &&& forward is None
                },
            },
    {
        match ev {
            WorkerEvent::Log { line } => {
                let f = line.clone();
                self.logs.push(line);
                Some(f)
            },
            WorkerEvent::Result { value } => {
                self.result = Some(Ok(value));
                None
            },
            WorkerEvent::Error { message, trace } => {
                self.result = Some(Err(ExecError::Workload { message, trace }));
                None
            },
        }
    }

    /// The outcome once the worker's output has ended: the last result with
    /// every log line (the error stream's after the rest), the last error, or
    /// `NoResult` when the worker reported neither.
    pub fn finish(self, stderr_logs: Vec<String>) -> (r: Result<(Json, Vec<String>), ExecError>)
        ensures
            match self.result {
                Some(Ok(v)) => r matches Ok((value, logs)) && value == v && logs@ == self.logs@
                    + stderr_logs@,
                Some(Err(e)) => r == Err::<(Json, Vec<String>), ExecError>(e),
                None => r == Err::<(Json, Vec<String>), ExecError>(ExecError::NoResult),
            },
    {
        let EventLog { logs, result } = self;
        let mut all = logs;
        let mut rest = stderr_logs;
        all.append(&mut rest);
        match result {
            Some(Ok(v)) => Ok((v, all)),
            Some(Err(e)) => Err(e),
            None => Err(ExecError::NoResult),
        }
    }
}

/// Take in one event of a pooled worker: a log line is kept and reading
/// goes on (`None`); a result or error ends the job.
pub fn pooled_event(logs: &mut Vec<String>, ev: WorkerEvent) -> (r: Option<Result<Json, ExecError>>)
    ensures
        match ev {
            WorkerEvent::Log { line } => final(logs)@ == old(logs)@.push(line) && r is None,
            WorkerEvent::Result { value } => final(logs)@ == old(logs)@ && r == Some(
                Ok::<Json, ExecError>(value),
            ),
            WorkerEvent::Error { message, trace } => final(logs)@ == old(logs)@ && r == Some(
                Err::<Json, ExecError>(ExecError::Workload { message, trace }),
            ),
        },
{
    match ev {
        WorkerEvent::Log { line } => {
            logs.push(line);
            None
        },
        WorkerEvent::Result { value } => Some(Ok(value)),
        WorkerEvent::Error { message, trace } => Some(Err(ExecError::Workload { message, trace })),
    }
}

/// A pooled worker that ended a job this way is still healthy: it reported a
/// result, or an error raised by the workload itself.
pub open spec fn reusable(r: Result<Json, ExecError>) -> bool {
    r is Ok || r matches Err(ExecError::Workload { .. })
}

/// What a job on a pooled worker comes to, and whether the worker goes back
/// to the pool. `read` is `None` when the job ran out of time.
pub fn pooled_outcome(
    read: Option<Result<Json, ExecError>>,
    timeout_secs: u64,
    logs: Vec<String>,
    duration_ms: u64,
) -> (r: (Result<ExecOutcome, ExecError>, bool))
    ensures
        match read {
            None => r.0 == Err::<ExecOutcome, ExecError>(ExecError::Timeout(timeout_secs)) && !r.1,
            Some(Ok(v)) => {
                &&& r.0 matches Ok(o) && o.value == v && o.logs@ == logs@ && o.duration_ms
                    == duration_ms
                &&& r.1
            },
            Some(Err(e)) => r.0 == Err::<ExecOutcome, ExecError>(e) && r.1 == reusable(
                Err::<Json, ExecError>(e),
            ),
        },
{
    match read {
        None => (Err(ExecError::Timeout(timeout_secs)), false),
        Some(Ok(value)) => (Ok(ExecOutcome { value, logs, duration_ms }), true),
        Some(Err(e)) => {
            let keep = match &e {
                ExecError::Workload { .. } => true,
                _ => false,
            };
            (Err(e), keep)
        },
    }
}

/// Whether the executor keeps a warm worker pool: only for process
/// isolation, and unless the pool setting is `0`.
pub fn pool_enabled(isolation: &Isolation, setting: Option<&str>) -> (b: bool)
    ensures
        b == (isolation is Process && !(setting matches Some(s) && s@ == "0"@)),
{
    let off = match setting {
        Some(s) => crate::text::str_eq(s, "0"),
        None => false,
    };
    match isolation {
        Isolation::Process { .. } => !off,
        _ => false,
    }
}

} // verus!
