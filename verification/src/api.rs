//! The request rules of the HTTP surface: names, limits, errors and the
//! validation of what clients send.

use vstd::prelude::*;
use vstd::string::StringExecFns;

use crate::dag::{dag_error_text, DagError};
use crate::exec::{exec_error_text, ExecError, ExecOutcome};
use crate::json::{Json, JsonV};
use crate::mcp::{object1, object2, object3, object4, text_array, text_list};
use crate::model::{ConnectorKind, Timestamp, LATEST_TIME};

verus! {

/// HTTP status of a client error.
pub const BAD_REQUEST: u16 = 400;

/// HTTP status of a missing resource.
pub const NOT_FOUND: u16 = 404;

/// HTTP status of a server fault.
pub const INTERNAL_SERVER_ERROR: u16 = 500;

/// Unified API error: carries the HTTP status the client should see.
#[derive(Debug, PartialEq, Eq)]
pub struct ApiError {
    pub status: u16,
    pub message: String,
}

/// The result of an API operation.
pub type ApiResult<T> = Result<T, ApiError>;

impl ApiError {
    pub fn bad_request(msg: String) -> (e: ApiError)
        ensures
            e.status == BAD_REQUEST,
            e.message == msg,
    {
        ApiError { status: BAD_REQUEST, message: msg }
    }

    pub fn internal(msg: String) -> (e: ApiError)
        ensures
            e.status == INTERNAL_SERVER_ERROR,
            e.message == msg,
    {
        ApiError { status: INTERNAL_SERVER_ERROR, message: msg }
    }
}

/// A failure of the persistent store.
#[derive(Debug, PartialEq, Eq)]
pub enum StoreError {
    /// The named record does not exist.
    NotFound(String),
    /// The database failed, with its message.
    Sqlite(String),
    /// A stored document did not (de)serialize, with the message.
    Json(String),
}

/// The message of a store error.
pub open spec fn store_error_text(e: StoreError) -> Seq<char> {
    match e {
        StoreError::NotFound(what) => "not found: "@ + what@,
        StoreError::Sqlite(m) => m@,
        StoreError::Json(m) => m@,
    }
}

impl StoreError {
    /// The human-readable message of this error.
    pub fn message(&self) -> (m: String)
        ensures
            m@ == store_error_text(*self),
    {
        match self {
            StoreError::NotFound(what) => String::from_str("not found: ").concat(what.as_str()),
            StoreError::Sqlite(m) => m.clone(),
            StoreError::Json(m) => m.clone(),
        }
    }
}

impl ApiError {
    /// The body of the error response: `{"error": message}`.
    pub fn body(&self) -> (j: Json)
        ensures
            j@ == JsonV::Object(seq![("error"@, JsonV::Str(self.message@))]),
    {
        object1("error", Json::Str(self.message.clone()))
    }
}

/// What the client sees of a store error: a missing record is a 404, any
/// other failure a 500.
pub open spec fn api_error_of_store(e: StoreError, r: ApiError) -> bool {
    &&& r.status == (if e is NotFound {
        NOT_FOUND
    } else {
        INTERNAL_SERVER_ERROR
    })
    &&& r.message@ == store_error_text(e)
}

impl ApiError {
    /// The API error that a store error becomes.
    pub fn from_store(e: StoreError) -> (r: ApiError)
        ensures
            api_error_of_store(e, r),
    {
        let status = match &e {
            StoreError::NotFound(_) => NOT_FOUND,
            _ => INTERNAL_SERVER_ERROR,
        };
        ApiError { status, message: e.message() }
    }
}

/// What the client sees of an invalid workflow DAG.
pub open spec fn api_error_of_dag(e: DagError, r: ApiError) -> bool {
    &&& r.status == BAD_REQUEST
    &&& r.message@ == "invalid workflow DAG: "@ + dag_error_text(e)
}

impl ApiError {
    /// The API error that an invalid workflow DAG becomes.
    pub fn from_dag(e: DagError) -> (r: ApiError)
        ensures
            api_error_of_dag(e, r),
    {
        let m = e.message();
        ApiError::bad_request(String::from_str("invalid workflow DAG: ").concat(m.as_str()))
    }
}

// ── names ────────────────────────────────────────────────────────────────

/// A character allowed in a name: an ASCII letter or digit, `_` or `-`.
pub open spec fn safe_char(c: char) -> bool {
    ('a' <= c && c <= 'z') || ('A' <= c && c <= 'Z') || ('0' <= c && c <= '9') || c == '_' || c == '-'
}

/// `name` matches `[a-zA-Z0-9_-]{1,64}`.
pub open spec fn safe_name(name: Seq<char>) -> bool {
    &&& 0 < name.len() <= 64
    &&& forall|i: int| 0 <= i < name.len() ==> #[trigger] safe_char(name[i])
}

/// True when `name` matches the platform-wide `[a-zA-Z0-9_-]{1,64}` rule used
/// for datasets, functions, and connectors.
pub fn is_safe_name(name: &str) -> (b: bool)
    ensures
        b == safe_name(name@),
{
    let n = name.unicode_len();
    if n == 0 {
        return false;
    }
    let mut i: usize = 0;
    while i < n
        invariant
            n == name@.len(),
            i <= n,
            forall|j: int| 0 <= j < i ==> #[trigger] safe_char(name@[j]),
        decreases n - i,
    {
        let c = name.get_char(i);
        if !(('a' <= c && c <= 'z') || ('A' <= c && c <= 'Z') || ('0' <= c && c <= '9') || c == '_' || c == '-') {
            assert(!safe_char(name@[i as int]));
            return false;
        }
        i = i + 1;
    }
    proof {
        assert(vstd::utf8::is_ascii_chars(name@)) by {
            assert forall|j: int| 0 <= j < name@.len() implies '\0' <= #[trigger] name@[j] <= '\u{7f}' by {
                assert(safe_char(name@[j]));
            }
        }
        vstd::utf8::is_ascii_chars_encode_utf8(name@);
    }
    // Only ASCII remains, so the byte length is the character count.
    name.len() <= 64
}

/// The message for a name that breaks the naming rule.
pub open spec fn bad_name_text(kind: Seq<char>) -> Seq<char> {
    kind + " name must match [a-zA-Z0-9_-]{1,64}"@
}

/// Reject a user-supplied name that isn't `[a-zA-Z0-9_-]{1,64}`. `kind` names
/// the thing being validated so the error reads e.g. "dataset name must ...".
pub fn require_safe_name(kind: &str, name: &str) -> (r: ApiResult<()>)
    ensures
        r is Ok <==> safe_name(name@),
        r matches Err(e) ==> e.status == BAD_REQUEST && e.message@ == bad_name_text(kind@),
{
    if is_safe_name(name) {
        Ok(())
    } else {
        Err(ApiError::bad_request(bad_name_message(kind)))
    }
}

/// The message for a name of `kind` that breaks the naming rule.
pub fn bad_name_message(kind: &str) -> (m: String)
    ensures
        m@ == bad_name_text(kind@),
{
    String::from_str(kind).concat(" name must match [a-zA-Z0-9_-]{1,64}")
}


// ── request limits ───────────────────────────────────────────────────────

/// Runs listed when a request names no limit.
pub fn default_limit() -> (n: u32)
    ensures
        n == 50,
{
    50
}

/// The most runs one request lists.
pub const MAX_RUNS_LISTED: u32 = 500;

/// The number of runs a listing returns for a requested `limit`.
pub fn runs_limit(limit: u32) -> (n: u32)
    ensures
        n == if limit < MAX_RUNS_LISTED { limit } else { MAX_RUNS_LISTED },
{
    if limit < MAX_RUNS_LISTED {
        limit
    } else {
        MAX_RUNS_LISTED
    }
}

/// Rows a query returns when it names no limit.
pub fn default_query_limit() -> (n: usize)
    ensures
        n == 10_000,
{
    10_000
}

/// The most rows one query returns.
pub const MAX_QUERY_ROWS: usize = 200_000;

/// The row limit of a query for a requested `limit`: at least one, at most
/// `MAX_QUERY_ROWS`.
pub fn query_limit(limit: usize) -> (n: usize)
    ensures
        n == if limit < 1 { 1 } else if limit > MAX_QUERY_ROWS { MAX_QUERY_ROWS } else { limit },
{
    if limit < 1 {
        1
    } else if limit > MAX_QUERY_ROWS {
        MAX_QUERY_ROWS
    } else {
        limit
    }
}

/// The time limit of a direct execution when the request names none, in seconds.
pub fn default_exec_timeout() -> (t: u64)
    ensures
        t == 120,
{
    120
}

/// The longest a direct execution may run, in seconds.
pub const MAX_EXEC_TIMEOUT: u64 = 600;

/// The time limit of a direct execution for a requested one: at least one
/// second, at most `MAX_EXEC_TIMEOUT`.
pub fn exec_timeout(t: u64) -> (r: u64)
    ensures
        r == if t < 1 { 1 } else if t > MAX_EXEC_TIMEOUT { MAX_EXEC_TIMEOUT } else { t },
{
    if t < 1 {
        1
    } else if t > MAX_EXEC_TIMEOUT {
        MAX_EXEC_TIMEOUT
    } else {
        t
    }
}

// ── request checks ───────────────────────────────────────────────────────

/// Check the name of a function to deploy.
pub fn check_function_name(name: &str) -> (r: ApiResult<()>)
    ensures
        r is Ok <==> safe_name(name@),
        r matches Err(e) ==> e.status == BAD_REQUEST && e.message@ == bad_name_text("function"@),
{
    if name.unicode_len() == 0 || !is_safe_name(name) {
        Err(ApiError::bad_request(bad_name_message("function")))
    } else {
        Ok(())
    }
}

/// A connector of this kind reaches its engine through a URL.
pub open spec fn needs_url(kind: ConnectorKind) -> bool {
    kind is Postgres || kind is Clickhouse
}

/// Only chDB, which runs inside the worker runtime, goes without a URL:
/// Postgres and ClickHouse are reached at their URL, so one of those kinds
/// with an empty URL is refused.
pub proof fn lemma_only_chdb_goes_without_url(kind: ConnectorKind)
    ensures
        needs_url(kind) <==> !(kind is Chdb),
        needs_url(ConnectorKind::Postgres),
        needs_url(ConnectorKind::Clickhouse),
        !needs_url(ConnectorKind::Chdb),
{
}

/// Check a connector to register: its name must follow the naming rule, and
/// a Postgres or ClickHouse connector needs a URL.
pub fn check_connector(name: &str, kind: ConnectorKind, url: &str) -> (r: ApiResult<()>)
    ensures
        !safe_name(name@) ==> (r matches Err(e) && e.status == BAD_REQUEST && e.message@ == bad_name_text(
            "connector"@,
        )),
        safe_name(name@) && needs_url(kind) && url@.len() == 0 ==> (r matches Err(e) && e.status == BAD_REQUEST
            && e.message@ == "this connector kind requires a url"@),
        safe_name(name@) && !(needs_url(kind) && url@.len() == 0) ==> r is Ok,
        safe_name(name@) ==> (r is Ok <==> (url@.len() > 0 || kind is Chdb)),
{
    if !is_safe_name(name) {
        return Err(ApiError::bad_request(bad_name_message("connector")));
    }
    let needs = match kind {
        ConnectorKind::Postgres | ConnectorKind::Clickhouse => true,
        ConnectorKind::Chdb => false,
    };
    if needs && url.unicode_len() == 0 {
        return Err(ApiError::bad_request(String::from_str("this connector kind requires a url")));
    }
    Ok(())
}

// ── replies ──────────────────────────────────────────────────────────────

/// The health-check reply.
pub fn healthz_body() -> (j: Json)
    ensures
        j@ == JsonV::Object(seq![("ok"@, JsonV::Bool(true)), ("service"@, JsonV::Str("cortex-server"@))]),
{
    object2("ok", Json::Bool(true), "service", Json::Str(String::from_str("cortex-server")))
}

/// The log lines of an execution, as a document array.
pub open spec fn logs_doc(logs: Seq<String>) -> JsonV {
    text_array(logs.map_values(|s: String| s@))
}

fn number_u64(n: u64) -> (j: Json)
    ensures
        j@ == JsonV::Number(crate::text::dec_text(n as nat)),
{
    Json::Number(crate::text::decimal(n))
}

/// The reply to invoking a function: its result and logs, or its error's
/// message; and how long it took.
pub open spec fn invoke_doc(result: Result<ExecOutcome, ExecError>, duration_ms: u64) -> JsonV {
    let d = JsonV::Number(crate::text::dec_text(duration_ms as nat));
    match result {
        Ok(o) => JsonV::Object(
            seq![("ok"@, JsonV::Bool(true)), ("result"@, o.value@), ("logs"@, logs_doc(o.logs@)), ("duration_ms"@, d)],
        ),
        Err(e) => JsonV::Object(seq![("ok"@, JsonV::Bool(false)), ("error"@, JsonV::Str(exec_error_text(e))), ("duration_ms"@, d)]),
    }
}

/// The reply to invoking a function.
pub fn invoke_reply(result: Result<ExecOutcome, ExecError>, duration_ms: u64) -> (j: Json)
    ensures
        j@ == invoke_doc(result, duration_ms),
{
    match result {
        Ok(o) => {
            let logs = text_list(&o.logs);
            object4("ok", Json::Bool(true), "result", o.value, "logs", logs, "duration_ms", number_u64(duration_ms))
        },
        Err(e) => object3(
            "ok",
            Json::Bool(false),
            "error",
            Json::Str(e.message()),
            "duration_ms",
            number_u64(duration_ms),
        ),
    }
}


/// The reply to a direct execution: its result and logs; a workload error's
/// message and stack trace; or another error's message; and how long it took.
pub open spec fn execute_doc(result: Result<ExecOutcome, ExecError>, duration_ms: u64) -> JsonV {
    let d = JsonV::Number(crate::text::dec_text(duration_ms as nat));
    match result {
        Err(ExecError::Workload { message, trace }) => JsonV::Object(
            seq![
                ("ok"@, JsonV::Bool(false)),
                ("error"@, JsonV::Str(message@)),
                ("trace"@, JsonV::Str(trace@)),
                ("duration_ms"@, d),
            ],
        ),
        _ => invoke_doc(result, duration_ms),
    }
}

/// The reply to a direct execution.
pub fn execute_reply(result: Result<ExecOutcome, ExecError>, duration_ms: u64) -> (j: Json)
    ensures
        j@ == execute_doc(result, duration_ms),
{
    match result {
        Err(ExecError::Workload { message, trace }) => object4(
            "ok",
            Json::Bool(false),
            "error",
            Json::Str(message),
            "trace",
            Json::Str(trace),
            "duration_ms",
            number_u64(duration_ms),
        ),
        other => invoke_reply(other, duration_ms),
    }
}

/// The last event of a streamed invocation: its name (`result` or `error`)
/// and its payload, with how long the invocation took.
pub fn stream_final(result: Result<ExecOutcome, ExecError>, duration_ms: u64) -> (r: (&'static str, Json))
    ensures
        match result {
            Ok(o) => r.0@ == "result"@ && r.1@ == JsonV::Object(
                seq![("result"@, o.value@), ("duration_ms"@, JsonV::Number(crate::text::dec_text(duration_ms as nat)))],
            ),
            Err(e) => r.0@ == "error"@ && r.1@ == JsonV::Object(
                seq![("error"@, JsonV::Str(exec_error_text(e))), ("duration_ms"@, JsonV::Number(crate::text::dec_text(duration_ms as nat)))],
            ),
        },
{
    match result {
        Ok(o) => ("result", object2("result", o.value, "duration_ms", number_u64(duration_ms))),
        Err(e) => ("error", object2("error", Json::Str(e.message()), "duration_ms", number_u64(duration_ms))),
    }
}


// ── ordering a run's tasks ───────────────────────────────────────────────

/// The sort key of a start time: the time, and for a task not started yet
/// the latest time a date-time can hold.
pub open spec fn start_key(t: Option<Timestamp>) -> int {
    match t {
        Some(x) => x as int,
        None => LATEST_TIME as int,
    }
}

fn start_time_key(t: Option<Timestamp>) -> (k: i128)
    ensures
        k == start_key(t),
{
    match t {
        Some(x) => x,
        None => LATEST_TIME,
    }
}

/// Entry `a` of `starts` comes before entry `b`: it started earlier, or at
/// the same time and stands earlier.
pub open spec fn starts_before(starts: Seq<Option<Timestamp>>, a: int, b: int) -> bool {
    start_key(starts[a]) < start_key(starts[b]) || (start_key(starts[a]) == start_key(starts[b]) && a < b)
}

/// The order in which a run's tasks are listed, given their start times:
/// by start time, tasks not started yet last, ties kept in their order (a
/// stable sort). Returns the positions in `starts`, in listing order.
pub fn start_order(starts: &Vec<Option<Timestamp>>) -> (order: Vec<usize>)
    ensures
        order@.len() == starts@.len(),
        forall|q: int| 0 <= q < order@.len() ==> (#[trigger] order@[q]) < starts@.len(),
        forall|i: int| 0 <= i < starts@.len() ==> #[trigger] order@.contains(i as usize),
        forall|a: int, b: int|
            0 <= a < b < order@.len() ==> starts_before(starts@, #[trigger] order@[a] as int, #[trigger] order@[b] as int),
{
    let mut order: Vec<usize> = Vec::new();
    let mut i: usize = 0;
    while i < starts.len()
        invariant
            i <= starts@.len(),
            order@.len() == i,
            forall|q: int| 0 <= q < order@.len() ==> (#[trigger] order@[q]) < i,
            forall|j: int| 0 <= j < i ==> #[trigger] order@.contains(j as usize),
            forall|a: int, b: int|
                0 <= a < b < order@.len() ==> starts_before(starts@, #[trigger] order@[a] as int, #[trigger] order@[b] as int),
        decreases starts.len() - i,
    {
        let key_i: i128 = start_time_key(starts[i]);
        let mut p: usize = 0;
        while p < order.len() && start_time_key(starts[order[p]]) <= key_i
            invariant
                p <= order@.len(),
                order@.len() == i,
                i < starts@.len(),
                key_i == start_key(starts@[i as int]),
                forall|q: int| 0 <= q < order@.len() ==> (#[trigger] order@[q]) < i,
                forall|q: int| 0 <= q < p ==> starts_before(starts@, #[trigger] order@[q] as int, i as int),
            decreases order.len() - p,
        {
            p = p + 1;
        }
        let ghost before = order@;
        proof {
            if p < before.len() {
                assert(start_key(starts@[before[p as int] as int]) > key_i);
                assert forall|q: int| p <= q < before.len() implies starts_before(starts@, i as int, #[trigger] before[q] as int) by {
                    if q > p {
                        assert(starts_before(starts@, before[p as int] as int, before[q] as int));
                    }
                }
            }
        }
        order.insert(p, i);
        proof {
            assert(order@ =~= before.insert(p as int, i));
            assert forall|j: int| 0 <= j < i + 1 implies #[trigger] order@.contains(j as usize) by {
                if j < i {
                    assert(before.contains(j as usize));
                    let w = choose|w: int| 0 <= w < before.len() && before[w] == j as usize;
                    if w < p {
                        assert(order@[w] == j as usize);
                    } else {
                        assert(order@[w + 1] == j as usize);
                    }
                } else {
                    assert(order@[p as int] == i);
                }
            }
            assert forall|a: int, b: int| 0 <= a < b < order@.len() implies starts_before(
                starts@,
                order@[a] as int,
                order@[b] as int,
            ) by {
                if b < p {
                } else if a < p && b == p {
                } else if a < p && b > p {
                    assert(order@[b] == before[b - 1]);
                } else if a == p {
                    assert(order@[b] == before[b - 1]);
                } else {
                    assert(order@[a] == before[a - 1]);
                    assert(order@[b] == before[b - 1]);
                }
            }
        }
        i = i + 1;
    }
    order
}


/// The reply to a query: its rows, how many, whether they were cut at the
/// limit, the connector it went to (for an external engine), and how long
/// it took.
pub open spec fn query_doc(rows: JsonV, row_count: usize, truncated: bool, connector: Option<Seq<char>>, elapsed_ms: u64) -> JsonV {
    let n = JsonV::Number(crate::text::dec_text(row_count as nat));
    let t = JsonV::Number(crate::text::dec_text(elapsed_ms as nat));
    match connector {
        Some(c) => JsonV::Object(
            seq![
                ("rows"@, rows),
                ("row_count"@, n),
                ("truncated"@, JsonV::Bool(truncated)),
                ("connector"@, JsonV::Str(c)),
                ("elapsed_ms"@, t),
            ],
        ),
        None => JsonV::Object(
            seq![("rows"@, rows), ("row_count"@, n), ("truncated"@, JsonV::Bool(truncated)), ("elapsed_ms"@, t)],
        ),
    }
}

/// The reply to a query.
pub fn query_reply(rows: Json, row_count: usize, truncated: bool, connector: Option<&str>, elapsed_ms: u64) -> (j: Json)
    ensures
        j@ == query_doc(
            rows@,
            row_count,
            truncated,
            match connector {
                Some(c) => Some(c@),
                None => None,
            },
            elapsed_ms,
        ),
{
    let n = number_u64(row_count as u64);
    let t = number_u64(elapsed_ms);
    match connector {
        Some(c) => {
            let members = vec![
                (String::from_str("rows"), rows),
                (String::from_str("row_count"), n),
                (String::from_str("truncated"), Json::Bool(truncated)),
                (String::from_str("connector"), Json::Str(String::from_str(c))),
                (String::from_str("elapsed_ms"), t),
            ];
            proof {
                crate::json::lemma_members_view_index(members@);
                assert(crate::json::members_view(members@) =~= seq![
                    ("rows"@, members@[0].1@),
                    ("row_count"@, members@[1].1@),
                    ("truncated"@, members@[2].1@),
                    ("connector"@, members@[3].1@),
                    ("elapsed_ms"@, members@[4].1@),
                ]);
            }
            Json::Object(members)
        },
        None => object4("rows", rows, "row_count", n, "truncated", Json::Bool(truncated), "elapsed_ms", t),
    }
}

} // verus!
