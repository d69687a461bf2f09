//! The domain model shared by the store, the executor and the server.
//!
//! Identifiers are 128-bit UUID values and timestamps are nanoseconds since
//! the Unix epoch (UTC); the server converts both at its edge.

use vstd::prelude::*;

use crate::json::Json;

verus! {

/// A UUID, as its 128-bit value.
pub type Id = u128;

/// A point in time: nanoseconds since 1970-01-01T00:00:00Z.
pub type Timestamp = i128;

/// The first second a date-time can hold (January 1, 262144 BCE), in
/// seconds since the epoch.
pub const EARLIEST_SECS: i64 = -8_334_601_315_200;

/// The last second a date-time can hold (December 31, 262142 CE,
/// 23:59:59), in seconds since the epoch.
pub const LATEST_SECS: i64 = 8_210_266_876_799;

/// The earliest instant a date-time can hold, in nanoseconds.
pub const EARLIEST_TIME: i128 = -8_334_601_315_200_000_000_000;

/// The latest instant a date-time can hold (the last nanosecond of
/// `LATEST_SECS`), in nanoseconds.
pub const LATEST_TIME: i128 = 8_210_266_876_799_999_999_999;

/// `t` is a timestamp that a date-time can hold.
pub open spec fn valid_timestamp(t: i128) -> bool {
    EARLIEST_TIME <= t <= LATEST_TIME
}

/// A fresh random (version 4) UUID.
#[verifier::external_body]
pub(crate) fn fresh_id() -> (id: Id) {
    uuid::Uuid::new_v4().as_u128()
}

/// The value of the UUID that `s` spells, when it spells one (in any of
/// the textual forms a UUID parser accepts).
pub uninterp spec fn uuid_value(s: Seq<char>) -> Option<u128>;

/// Read `s` as a UUID: `uuid::Uuid::parse_str`, taken as the 128-bit value.
/// The forms it accepts (simple, hyphenated, braced, URN) are left to the
/// name `uuid_value`.
#[verifier::external_body]
pub(crate) fn parse_uuid(s: &str) -> (r: Option<Id>)
    ensures
        r == uuid_value(s@),
{
    match uuid::Uuid::parse_str(s) {
        Ok(u) => Some(u.as_u128()),
        Err(_) => None,
    }
}

/// `chrono::Utc::now()`, as its whole seconds since the epoch
/// (`timestamp`) and the nanoseconds past that second
/// (`timestamp_subsec_nanos`). The clock is read from the system, so only
/// the range is stated: the seconds lie in the range a date-time holds, and
/// the nanoseconds, which come from a `Duration`, are below one second.
#[verifier::external_body]
fn utc_now() -> (p: (i64, u32))
    ensures
        EARLIEST_SECS <= p.0 <= LATEST_SECS,
        p.1 < 1_000_000_000,
{
    let t = chrono::Utc::now();
    (t.timestamp(), t.timestamp_subsec_nanos())
}

/// The current time.
pub(crate) fn now() -> (t: Timestamp)
    ensures
        valid_timestamp(t),
{
    let (secs, nanos) = utc_now();
    let s: i128 = secs as i128;
    proof {
        assert(EARLIEST_SECS * 1_000_000_000 <= s * 1_000_000_000 <= LATEST_SECS * 1_000_000_000) by (nonlinear_arith)
            requires
                EARLIEST_SECS <= s <= LATEST_SECS,
        ;
    }
    s * 1_000_000_000 + nanos as i128
}

/// Whole milliseconds in `d` nanoseconds, rounded toward zero.
pub open spec fn whole_millis(d: int) -> int {
    if d >= 0 {
        d / 1_000_000
    } else {
        -((-d) / 1_000_000)
    }
}

/// Language runtime a task or function executes in.
#[derive(Debug, Clone, Copy, PartialEq, Eq, Structural)]
pub enum Runtime {
    Python,
    Typescript,
    Javascript,
}

/// The lowercase wire name of a runtime.
pub open spec fn runtime_name(r: Runtime) -> Seq<char> {
    match r {
        Runtime::Python => "python"@,
        Runtime::Typescript => "typescript"@,
        Runtime::Javascript => "javascript"@,
    }
}

impl Runtime {
    pub fn as_str(&self) -> (s: &'static str)
        ensures
            s@ == runtime_name(*self),
    {
        match self {
            Runtime::Python => "python",
            Runtime::Typescript => "typescript",
            Runtime::Javascript => "javascript",
        }
    }
}

/// A single node in a workflow DAG.
///
/// `code` is the task body: a Python module defining `def handler(params, inputs)`,
/// or an ES module exporting `handler(params, inputs)` (TypeScript type
/// annotations are stripped at load time for the `typescript` runtime).
#[derive(Debug)]
pub struct TaskSpec {
    /// Unique (within the workflow) task identifier, e.g. `"extract"`.
    pub id: String,
    pub name: Option<String>,
    pub runtime: Runtime,
    pub code: String,
    /// The ids of the tasks whose results feed into it.
    pub depends_on: Vec<String>,
    /// Its own parameters, laid over the parameters of the run.
    pub params: Json,
    pub timeout_secs: u64,
    pub retries: u32,
}

/// The timeout of a task or function that does not name one.
pub fn default_timeout() -> (t: u64)
    ensures
        t == 300,
{
    300
}

/// How a workflow gets kicked off besides manual triggering.
#[derive(Debug)]
pub struct TriggerSpec {
    /// Run every N seconds.
    pub every_secs: Option<u64>,
    /// Run whenever data lands in this dataset.
    pub on_ingest: Option<String>,
}

impl Default for TriggerSpec {
    fn default() -> (t: TriggerSpec)
        ensures
            t.every_secs is None,
            t.on_ingest is None,
    {
        TriggerSpec { every_secs: None, on_ingest: None }
    }
}

/// The user-authored definition of a workflow.
#[derive(Debug)]
pub struct WorkflowSpec {
    pub name: String,
    pub description: Option<String>,
    /// Default run parameters, overridable per trigger.
    pub params: Json,
    pub tasks: Vec<TaskSpec>,
    pub triggers: TriggerSpec,
    /// Maximum tasks executing concurrently within one run.
    pub max_parallel_tasks: usize,
}

/// The concurrency of a workflow that does not name one.
pub fn default_concurrency() -> (n: usize)
    ensures
        n == 8,
{
    8
}

/// A stored workflow.
#[derive(Debug)]
pub struct Workflow {
    pub id: Id,
    pub spec: WorkflowSpec,
    pub created_at: Timestamp,
    pub updated_at: Timestamp,
}

/// The state of a run or of one task within it.
#[derive(Debug, Clone, Copy, PartialEq, Eq, Structural)]
pub enum RunState {
    Pending,
    Running,
    Completed,
    Failed,
    Cancelled,
}

/// The lowercase wire name of a run state.
pub open spec fn run_state_name(s: RunState) -> Seq<char> {
    match s {
        RunState::Pending => "pending"@,
        RunState::Running => "running"@,
        RunState::Completed => "completed"@,
        RunState::Failed => "failed"@,
        RunState::Cancelled => "cancelled"@,
    }
}

/// A state from which a run or task never moves on.
pub open spec fn terminal(s: RunState) -> bool {
    s is Completed || s is Failed || s is Cancelled
}

impl RunState {
    pub fn as_str(&self) -> (s: &'static str)
        ensures
            s@ == run_state_name(*self),
    {
        match self {
            RunState::Pending => "pending",
            RunState::Running => "running",
            RunState::Completed => "completed",
            RunState::Failed => "failed",
            RunState::Cancelled => "cancelled",
        }
    }

    pub fn is_terminal(&self) -> (b: bool)
        ensures
            b == terminal(*self),
    {
        match self {
            RunState::Completed | RunState::Failed | RunState::Cancelled => true,
            _ => false,
        }
    }
}

/// One execution of a workflow.
#[derive(Debug)]
pub struct Run {
    pub id: Id,
    pub workflow_id: Id,
    pub workflow_name: String,
    pub state: RunState,
    /// Effective parameters for this run.
    pub params: Json,
    /// What started the run: `manual`, `schedule`, `ingest:<dataset>`, `sdk`.
    pub trigger: String,
    pub error: Option<String>,
    pub created_at: Timestamp,
    pub started_at: Option<Timestamp>,
    pub finished_at: Option<Timestamp>,
}

/// `run` is a fresh pending run of `workflow` with parameters `params`,
/// started by `trigger`.
pub open spec fn fresh_run(run: Run, workflow: Workflow, params: Json, trigger: Seq<char>) -> bool {
    &&& run.workflow_id == workflow.id
    &&& run.workflow_name@ == workflow.spec.name@
    &&& run.state == RunState::Pending
    &&& run.params == params
    &&& run.trigger@ == trigger
    &&& run.error is None
    &&& run.started_at is None
    &&& run.finished_at is None
}

impl Run {
    /// A pending run of `workflow`, with a fresh id, created now.
    pub fn new(workflow: &Workflow, params: Json, trigger: String) -> (run: Run)
        ensures
            fresh_run(run, *workflow, params, trigger@),
            valid_timestamp(run.created_at),
    {
        let id = fresh_id();
        let created_at = now();
        Run::new_at(id, created_at, workflow, params, trigger)
    }

    /// A pending run of `workflow` with the given id and creation time.
    pub fn new_at(
        id: Id,
        created_at: Timestamp,
        workflow: &Workflow,
        params: Json,
        trigger: String,
    ) -> (run: Run)
        ensures
            fresh_run(run, *workflow, params, trigger@),
            run.id == id,
            run.created_at == created_at,
    {
        Run {
            id,
            workflow_id: workflow.id,
            workflow_name: workflow.spec.name.clone(),
            state: RunState::Pending,
            params,
            trigger,
            error: None,
            created_at,
            started_at: None,
            finished_at: None,
        }
    }

    /// Whole milliseconds between start and finish (rounded toward zero),
    /// once both are known.
    pub fn duration_ms(&self) -> (d: Option<i64>)
        requires
            self.started_at matches Some(s) ==> valid_timestamp(s),
            self.finished_at matches Some(f) ==> valid_timestamp(f),
        ensures
            d == match (self.started_at, self.finished_at) {
                (Some(s), Some(f)) => Some(whole_millis(f - s) as i64),
                _ => None::<i64>,
            },
            d matches Some(x) ==> x == whole_millis(self.finished_at.unwrap() - self.started_at.unwrap()),
    {
        match (self.started_at, self.finished_at) {
            (Some(s), Some(f)) => {
                let d: i128 = f - s;
                let ms: i128 = if d >= 0 {
                    d / 1_000_000
                } else {
                    -((-d) / 1_000_000)
                };
                Some(ms as i64)
            },
            _ => None,
        }
    }
}

/// One execution of a single task within a run.
#[derive(Debug)]
pub struct TaskRun {
    pub id: Id,
    pub run_id: Id,
    pub task_id: String,
    pub name: String,
    pub state: RunState,
    pub attempts: u32,
    pub result: Option<Json>,
    pub error: Option<String>,
    pub logs: Vec<String>,
    pub started_at: Option<Timestamp>,
    pub finished_at: Option<Timestamp>,
}

/// The display name of a task: its name, or its id when it has none.
pub open spec fn task_display_name(task: TaskSpec) -> Seq<char> {
    match task.name {
        Some(n) => n@,
        None => task.id@,
    }
}

/// `tr` is a fresh pending task run of `task` within run `run_id`.
pub open spec fn fresh_task_run(tr: TaskRun, run_id: Id, task: TaskSpec) -> bool {
    &&& tr.run_id == run_id
    &&& tr.task_id@ == task.id@
    &&& tr.name@ == task_display_name(task)
    &&& tr.state == RunState::Pending
    &&& tr.attempts == 0
    &&& tr.result is None
    &&& tr.error is None
    &&& tr.logs@.len() == 0
    &&& tr.started_at is None
    &&& tr.finished_at is None
}

impl TaskRun {
    /// A pending task run of `task` within run `run_id`, with a fresh id.
    pub fn new(run_id: Id, task: &TaskSpec) -> (tr: TaskRun)
        ensures
            fresh_task_run(tr, run_id, *task),
    {
        TaskRun::new_with_id(fresh_id(), run_id, task)
    }

    /// A pending task run of `task` within run `run_id`, with the given id.
    pub fn new_with_id(id: Id, run_id: Id, task: &TaskSpec) -> (tr: TaskRun)
        ensures
            fresh_task_run(tr, run_id, *task),
            tr.id == id,
    {
        let name = match &task.name {
            Some(n) => n.clone(),
            None => task.id.clone(),
        };
        TaskRun {
            id,
            run_id,
            task_id: task.id.clone(),
            name,
            state: RunState::Pending,
            attempts: 0,
            result: None,
            error: None,
            logs: Vec::new(),
            started_at: None,
            finished_at: None,
        }
    }
}

/// A serverless function: a named, single-shot handler invocable over HTTP.
#[derive(Debug)]
pub struct FunctionSpec {
    pub name: String,
    pub description: Option<String>,
    pub runtime: Runtime,
    pub code: String,
    pub timeout_secs: u64,
}

/// A deployed serverless function.
#[derive(Debug)]
pub struct Function {
    pub id: Id,
    pub spec: FunctionSpec,
    pub invocations: u64,
    pub created_at: Timestamp,
    pub updated_at: Timestamp,
}

impl Function {
    /// Deploy `spec`: update `existing` (keeping its id, creation time and
    /// invocation count) or create a new function with `id`, at time `now`.
    pub fn upserted(existing: Option<Function>, spec: FunctionSpec, id: Id, now: Timestamp) -> (f: Function)
        ensures
            f.spec == spec,
            f.updated_at == now,
            match existing {
                Some(e) => f.id == e.id && f.created_at == e.created_at
                    && f.invocations == e.invocations,
                None => f.id == id && f.created_at == now && f.invocations == 0,
            },
    {
        match existing {
            Some(e) => Function {
                id: e.id,
                spec,
                invocations: e.invocations,
                created_at: e.created_at,
                updated_at: now,
            },
            None => Function { id, spec, invocations: 0, created_at: now, updated_at: now },
        }
    }

    /// Count one more invocation.
    pub fn record_invocation(&mut self)
        requires
            old(self).invocations < u64::MAX,
        ensures
            final(self).invocations == old(self).invocations + 1,
            final(self).id == old(self).id,
            final(self).spec == old(self).spec,
            final(self).created_at == old(self).created_at,
            final(self).updated_at == old(self).updated_at,
    {
        self.invocations = self.invocations + 1;
    }
}

/// A named stream of ingested records (NDJSON, one record per line).
#[derive(Debug)]
pub struct Dataset {
    pub name: String,
    pub records: u64,
    pub bytes: u64,
    pub created_at: Timestamp,
    pub updated_at: Timestamp,
}

impl Dataset {
    /// Add `records` and `bytes` to a dataset's running totals at time `now`,
    /// creating the dataset named `name` on its first ingest.
    pub fn ingested(existing: Option<Dataset>, name: String, records: u64, bytes: u64, now: Timestamp) -> (d: Dataset)
        requires
            existing matches Some(e) ==> e.records + records <= u64::MAX && e.bytes + bytes <= u64::MAX,
        ensures
            d.updated_at == now,
            match existing {
                Some(e) => d.name == e.name && d.records == e.records + records
                    && d.bytes == e.bytes + bytes && d.created_at == e.created_at,
                None => d.name == name && d.records == records && d.bytes == bytes
                    && d.created_at == now,
            },
    {
        match existing {
            Some(e) => Dataset {
                name: e.name,
                records: e.records + records,
                bytes: e.bytes + bytes,
                created_at: e.created_at,
                updated_at: now,
            },
            None => Dataset { name, records, bytes, created_at: now, updated_at: now },
        }
    }
}

/// External query engine a connector points at.
#[derive(Debug, Clone, Copy, PartialEq, Eq, Structural)]
pub enum ConnectorKind {
    /// PostgreSQL over the native protocol.
    Postgres,
    /// ClickHouse over its HTTP interface.
    Clickhouse,
    /// chDB (embedded ClickHouse) running inside the Python worker runtime.
    Chdb,
}

/// The lowercase wire name of a connector kind.
pub open spec fn connector_kind_name(k: ConnectorKind) -> Seq<char> {
    match k {
        ConnectorKind::Postgres => "postgres"@,
        ConnectorKind::Clickhouse => "clickhouse"@,
        ConnectorKind::Chdb => "chdb"@,
    }
}

impl ConnectorKind {
    pub fn as_str(&self) -> (s: &'static str)
        ensures
            s@ == connector_kind_name(*self),
    {
        match self {
            ConnectorKind::Postgres => "postgres",
            ConnectorKind::Clickhouse => "clickhouse",
            ConnectorKind::Chdb => "chdb",
        }
    }
}

/// A named external data source queryable through `POST /api/query`.
#[derive(Debug)]
pub struct Connector {
    pub name: String,
    pub kind: ConnectorKind,
    /// Connection URL (`postgres://…`, `http://clickhouse:8123`); unused for chdb.
    pub url: String,
    pub created_at: Timestamp,
}

/// A notebook document. Cells are client-defined JSON — the server stores
/// and serves them; execution happens through `/api/execute` and `/api/query`.
#[derive(Debug)]
pub struct Notebook {
    pub id: Id,
    pub name: String,
    pub cells: Json,
    pub created_at: Timestamp,
    pub updated_at: Timestamp,
}

/// Aggregate counters for the dashboard.
#[derive(Debug, Clone, Copy, PartialEq, Eq, Structural)]
pub struct Stats {
    pub workflows: u64,
    pub functions: u64,
    pub datasets: u64,
    pub runs_total: u64,
    pub runs_running: u64,
    pub runs_completed: u64,
    pub runs_failed: u64,
    pub records_ingested: u64,
    pub bytes_ingested: u64,
}

impl Default for Stats {
    fn default() -> (s: Stats)
        ensures
            s == (Stats {
                workflows: 0,
                functions: 0,
                datasets: 0,
                runs_total: 0,
                runs_running: 0,
                runs_completed: 0,
                runs_failed: 0,
                records_ingested: 0,
                bytes_ingested: 0,
            }),
    {
        Stats {
            workflows: 0,
            functions: 0,
            datasets: 0,
            runs_total: 0,
            runs_running: 0,
            runs_completed: 0,
            runs_failed: 0,
            records_ingested: 0,
            bytes_ingested: 0,
        }
    }
}

impl Stats {
    /// The dashboard counters from the stored totals: a run still pending
    /// counts as running.
    pub fn from_counts(
        workflows: u64,
        functions: u64,
        datasets: u64,
        runs_total: u64,
        runs_pending: u64,
        runs_running: u64,
        runs_completed: u64,
        runs_failed: u64,
        records_ingested: u64,
        bytes_ingested: u64,
    ) -> (s: Stats)
        requires
            runs_pending + runs_running <= u64::MAX,
        ensures
            s == (Stats {
                workflows,
                functions,
                datasets,
                runs_total,
                runs_running: (runs_running + runs_pending) as u64,
                runs_completed,
                runs_failed,
                records_ingested,
                bytes_ingested,
            }),
    {
        Stats {
            workflows,
            functions,
            datasets,
            runs_total,
            runs_running: runs_running + runs_pending,
            runs_completed,
            runs_failed,
            records_ingested,
            bytes_ingested,
        }
    }
}


impl Workflow {
    /// Store `spec`: as the new spec of `existing` (keeping its id and
    /// creation time), or as a new workflow with `id`, at time `now`.
    pub fn upserted(existing: Option<Workflow>, spec: WorkflowSpec, id: Id, now: Timestamp) -> (w: Workflow)
        ensures
            w.spec == spec,
            w.updated_at == now,
            match existing {
                Some(e) => w.id == e.id && w.created_at == e.created_at,
                None => w.id == id && w.created_at == now,
            },
    {
        match existing {
            Some(e) => Workflow { id: e.id, spec, created_at: e.created_at, updated_at: now },
            None => Workflow { id, spec, created_at: now, updated_at: now },
        }
    }
}

/// The first workflow in `workflows` called `name`.
pub fn find_workflow_named(workflows: &[Workflow], name: &str) -> (r: Option<usize>)
    ensures
        match r {
            Some(i) => i < workflows@.len() && workflows@[i as int].spec.name@ == name@ && forall|j: int|
                0 <= j < i ==> workflows@[j].spec.name@ != name@,
            None => forall|j: int| 0 <= j < workflows@.len() ==> workflows@[j].spec.name@ != name@,
        },
{
    let mut i: usize = 0;
    while i < workflows.len()
        invariant
            i <= workflows@.len(),
            forall|j: int| 0 <= j < i ==> workflows@[j].spec.name@ != name@,
        decreases workflows.len() - i,
    {
        if crate::text::str_eq(workflows[i].spec.name.as_str(), name) {
            return Some(i);
        }
        i = i + 1;
    }
    None
}

impl Notebook {
    /// A new notebook with `id`, created at time `now`.
    pub fn created(id: Id, name: String, cells: Json, now: Timestamp) -> (n: Notebook)
        ensures
            n == (Notebook { id, name, cells, created_at: now, updated_at: now }),
    {
        Notebook { id, name, cells, created_at: now, updated_at: now }
    }

    /// Replace the notebook's name and cells at time `now`.
    pub fn edit(&mut self, name: String, cells: Json, now: Timestamp)
        ensures
            *final(self) == (Notebook { name, cells, updated_at: now, ..*old(self) }),
    {
        self.name = name;
        self.cells = cells;
        self.updated_at = now;
    }
}

} // verus!
