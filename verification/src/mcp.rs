//! The MCP (Model Context Protocol) surface: how a JSON-RPC message is read,
//! which tools exist, how a tool call's arguments are checked, and how
//! replies are shaped. Running a tool (the store, the executor) happens
//! around this module.

use vstd::prelude::*;
use vstd::string::StringExecFns;

use crate::api::{bad_name_message, bad_name_text, is_safe_name, safe_name};
use crate::json::{field, get_spec, has_key, is_first_key, items_view, lemma_items_view_index, lemma_member_at, lemma_members_view_index,
    members_view, Json, JsonV};
use crate::model::{parse_uuid, runtime_name, uuid_value, Id, Runtime};
use crate::text::{parsed_u64, str_eq};

verus! {

/// The protocol revision the server speaks.
pub const PROTOCOL_VERSION: &'static str = "2025-06-18";

/// The JSON-RPC error code of every failed request.
pub const METHOD_NOT_FOUND: &'static str = "-32601";

/// How long `execute_code` may run, in seconds.
pub const EXECUTE_TIMEOUT_SECS: u64 = 120;

// ── building documents ───────────────────────────────────────────────────

/// A document holding the text `s`.
pub open spec fn text_of(s: Seq<char>) -> JsonV {
    JsonV::Str(s)
}

fn member_of(key: &str, value: Json) -> (m: (String, Json))
    ensures
        m.0@ == key@,
        m.1 == value,
{
    (String::from_str(key), value)
}

/// An object with one member.
pub fn object1(k1: &str, v1: Json) -> (r: Json)
    ensures
        r@ == JsonV::Object(seq![(k1@, v1@)]),
{
    let members = vec![member_of(k1, v1)];
    proof {
        lemma_members_view_index(members@);
        assert(members_view(members@) =~= seq![(k1@, members@[0].1@)]);
    }
    Json::Object(members)
}

/// An object with two members, in order.
pub fn object2(k1: &str, v1: Json, k2: &str, v2: Json) -> (r: Json)
    ensures
        r@ == JsonV::Object(seq![(k1@, v1@), (k2@, v2@)]),
{
    let members = vec![member_of(k1, v1), member_of(k2, v2)];
    proof {
        lemma_members_view_index(members@);
        assert(members_view(members@) =~= seq![(k1@, members@[0].1@), (k2@, members@[1].1@)]);
    }
    Json::Object(members)
}

/// An object with three members, in order.
pub fn object3(k1: &str, v1: Json, k2: &str, v2: Json, k3: &str, v3: Json) -> (r: Json)
    ensures
        r@ == JsonV::Object(seq![(k1@, v1@), (k2@, v2@), (k3@, v3@)]),
{
    let members = vec![member_of(k1, v1), member_of(k2, v2), member_of(k3, v3)];
    proof {
        lemma_members_view_index(members@);
        assert(members_view(members@) =~= seq![
            (k1@, members@[0].1@),
            (k2@, members@[1].1@),
            (k3@, members@[2].1@),
        ]);
    }
    Json::Object(members)
}

/// An object with four members, in order.
pub fn object4(k1: &str, v1: Json, k2: &str, v2: Json, k3: &str, v3: Json, k4: &str, v4: Json) -> (r: Json)
    ensures
        r@ == JsonV::Object(seq![(k1@, v1@), (k2@, v2@), (k3@, v3@), (k4@, v4@)]),
{
    let members = vec![member_of(k1, v1), member_of(k2, v2), member_of(k3, v3), member_of(k4, v4)];
    proof {
        lemma_members_view_index(members@);
        assert(members_view(members@) =~= seq![
            (k1@, members@[0].1@),
            (k2@, members@[1].1@),
            (k3@, members@[2].1@),
            (k4@, members@[3].1@),
        ]);
    }
    Json::Object(members)
}

fn text(s: &str) -> (j: Json)
    ensures
        j@ == JsonV::Str(s@),
{
    Json::Str(String::from_str(s))
}

fn empty_object() -> (j: Json)
    ensures
        j@ == JsonV::Object(Seq::empty()),
{
    let members: Vec<(String, Json)> = Vec::new();
    proof {
        lemma_members_view_index(members@);
        assert(members_view(members@) =~= Seq::<(Seq<char>, JsonV)>::empty());
    }
    Json::Object(members)
}

fn empty_array() -> (j: Json)
    ensures
        j@ == JsonV::Array(Seq::empty()),
{
    let items: Vec<Json> = Vec::new();
    proof {
        lemma_items_view_index(items@);
        assert(items_view(items@) =~= Seq::<JsonV>::empty());
    }
    Json::Array(items)
}

// ── messages ─────────────────────────────────────────────────────────────

/// A JSON-RPC message, as the server reads it.
#[derive(Debug)]
pub enum McpMessage {
    /// A message without an id: acknowledged, never answered.
    Notification,
    /// A request to answer.
    Request { id: Json, method: String, params: Json },
}

/// The text of a string member `key` of `j`, if it is one.
pub open spec fn str_field(j: JsonV, key: Seq<char>) -> Option<Seq<char>> {
    match field(j, key) {
        JsonV::Str(s) => Some(s),
        _ => None,
    }
}

/// Read a message: one without an `id` member is a notification; otherwise
/// its method (empty when missing or not a string) and its parameters (null
/// when missing).
pub fn classify(msg: &Json) -> (r: McpMessage)
    ensures
        match get_spec(msg@, "id"@) {
            None => r is Notification,
            Some(id) => r matches McpMessage::Request { id: i, method, params } && i@ == id && method@ == (
            match str_field(msg@, "method"@) {
                Some(m) => m,
                None => ""@,
            }) && params@ == field(msg@, "params"@),
        },
{
    match msg.get("id") {
        None => McpMessage::Notification,
        Some(id) => {
            let m = msg.field("method");
            let method = match m.as_str() {
                Some(s) => String::from_str(s),
                None => String::from_str(""),
            };
            McpMessage::Request { id: id.deep_copy(), method, params: msg.field("params") }
        },
    }
}

/// The methods the server knows.
#[derive(Debug, Clone, Copy, PartialEq, Eq, Structural)]
pub enum McpMethod {
    Initialize,
    Ping,
    ToolsList,
    ToolsCall,
    Unknown,
}

/// Which method a request names.
pub open spec fn method_of(m: Seq<char>) -> McpMethod {
    if m == "initialize"@ {
        McpMethod::Initialize
    } else if m == "ping"@ {
        McpMethod::Ping
    } else if m == "tools/list"@ {
        McpMethod::ToolsList
    } else if m == "tools/call"@ {
        McpMethod::ToolsCall
    } else {
        McpMethod::Unknown
    }
}

/// Which method a request names.
pub fn route_method(method: &str) -> (r: McpMethod)
    ensures
        r == method_of(method@),
{
    if str_eq(method, "initialize") {
        McpMethod::Initialize
    } else if str_eq(method, "ping") {
        McpMethod::Ping
    } else if str_eq(method, "tools/list") {
        McpMethod::ToolsList
    } else if str_eq(method, "tools/call") {
        McpMethod::ToolsCall
    } else {
        McpMethod::Unknown
    }
}

/// The error message for a method the server does not know.
pub fn method_not_found(method: &str) -> (m: String)
    ensures
        m@ == "method not found: "@ + method@,
{
    String::from_str("method not found: ").concat(method)
}

/// What the server tells a client about itself.
pub const INSTRUCTIONS: &'static str = "Cortex is a workflow orchestration platform. Define DAGs of Python/TypeScript tasks, trigger runs, execute code directly, run SQL over ingested datasets (embedded Polars) or external connectors, ingest NDJSON data, and manage serverless functions.";

/// The reply to `initialize`, for a server of version `version`.
pub open spec fn initialize_doc(version: Seq<char>) -> JsonV {
    JsonV::Object(
        seq![
            ("protocolVersion"@, JsonV::Str(PROTOCOL_VERSION@)),
            ("capabilities"@, JsonV::Object(seq![("tools"@, JsonV::Object(Seq::empty()))])),
            ("serverInfo"@, JsonV::Object(seq![("name"@, JsonV::Str("cortex"@)), ("version"@, JsonV::Str(version))])),
            ("instructions"@, JsonV::Str(INSTRUCTIONS@)),
        ],
    )
}

/// The reply to `initialize`.
pub fn initialize_result(version: &str) -> (r: Json)
    ensures
        r@ == initialize_doc(version@),
{
    object4(
        "protocolVersion",
        text(PROTOCOL_VERSION),
        "capabilities",
        object1("tools", empty_object()),
        "serverInfo",
        object2("name", text("cortex"), "version", text(version)),
        "instructions",
        text(INSTRUCTIONS),
    )
}

/// The reply to `ping`.
pub fn ping_result() -> (r: Json)
    ensures
        r@ == JsonV::Object(Seq::empty()),
{
    empty_object()
}

/// The JSON-RPC reply to request `id`: its result, or an error with the
/// message.
pub open spec fn response_doc(id: JsonV, result: Result<JsonV, Seq<char>>) -> JsonV {
    match result {
        Ok(v) => JsonV::Object(seq![("jsonrpc"@, JsonV::Str("2.0"@)), ("id"@, id), ("result"@, v)]),
        Err(m) => JsonV::Object(
            seq![
                ("jsonrpc"@, JsonV::Str("2.0"@)),
                ("id"@, id),
                ("error"@, JsonV::Object(seq![("code"@, JsonV::Number(METHOD_NOT_FOUND@)), ("message"@, JsonV::Str(m))])),
            ],
        ),
    }
}

/// The JSON-RPC reply to request `id`.
pub fn rpc_response(id: Json, result: Result<Json, String>) -> (r: Json)
    ensures
        r@ == response_doc(
            id@,
            match result {
                Ok(v) => Ok(v@),
                Err(m) => Err(m@),
            },
        ),
{
    match result {
        Ok(v) => object3("jsonrpc", text("2.0"), "id", id, "result", v),
        Err(m) => object3(
            "jsonrpc",
            text("2.0"),
            "id",
            id,
            "error",
            object2("code", Json::Number(String::from_str(METHOD_NOT_FOUND)), "message", Json::Str(m)),
        ),
    }
}

// ── tools ────────────────────────────────────────────────────────────────

/// The texts of `names`, as a document array.
pub open spec fn text_array(names: Seq<Seq<char>>) -> JsonV {
    JsonV::Array(names.map_values(|n: Seq<char>| JsonV::Str(n)))
}

/// The definition of one tool.
pub open spec fn tool_doc(name: Seq<char>, description: Seq<char>, properties: JsonV, required: Seq<Seq<char>>) -> JsonV {
    JsonV::Object(
        seq![
            ("name"@, JsonV::Str(name)),
            ("description"@, JsonV::Str(description)),
            ("inputSchema"@, JsonV::Object(
                seq![
                    ("type"@, JsonV::Str("object"@)),
                    ("properties"@, properties),
                    ("required"@, text_array(required)),
                ],
            )),
        ],
    )
}

/// The definition of one tool: its name, what it does, and the schema of its
/// arguments.
pub fn tool(name: &str, description: &str, properties: Json, required: Vec<&str>) -> (r: Json)
    ensures
        r@ == tool_doc(name@, description@, properties@, required@.map_values(|s: &str| s@)),
{
    let mut items: Vec<Json> = Vec::new();
    let mut i: usize = 0;
    while i < required.len()
        invariant
            i <= required@.len(),
            items@.len() == i,
            items_view(items@) == required@.subrange(0, i as int).map_values(|s: &str| JsonV::Str(s@)),
        decreases required.len() - i,
    {
        let ghost before = items@;
        items.push(text(required[i]));
        proof {
            crate::json::lemma_items_view_push(before, items@[i as int]);
            assert(items@ == before.push(items@[i as int]));
            assert(required@.subrange(0, i + 1).map_values(|s: &str| JsonV::Str(s@)) =~= required@.subrange(
                0,
                i as int,
            ).map_values(|s: &str| JsonV::Str(s@)).push(JsonV::Str(required@[i as int]@)));
        }
        i = i + 1;
    }
    proof {
        assert(required@.subrange(0, required@.len() as int) =~= required@);
        assert(required@.map_values(|s: &str| JsonV::Str(s@)) =~= required@.map_values(|s: &str| s@).map_values(
            |n: Seq<char>| JsonV::Str(n),
        ));
    }
    object3(
        "name",
        text(name),
        "description",
        text(description),
        "inputSchema",
        object3("type", text("object"), "properties", properties, "required", Json::Array(items)),
    )
}

/// A schema property of one JSON type.
pub open spec fn typed(t: Seq<char>) -> JsonV {
    JsonV::Object(seq![("type"@, JsonV::Str(t))])
}

/// The schema property of a runtime name.
pub open spec fn runtime_schema() -> JsonV {
    JsonV::Object(
        seq![
            ("type"@, JsonV::Str("string"@)),
            ("enum"@, JsonV::Array(seq![JsonV::Str("python"@), JsonV::Str("typescript"@), JsonV::Str("javascript"@)])),
        ],
    )
}

fn typed_prop(t: &str) -> (j: Json)
    ensures
        j@ == typed(t@),
{
    object1("type", text(t))
}

fn runtime_prop() -> (j: Json)
    ensures
        j@ == runtime_schema(),
{
    let names = vec![text("python"), text("typescript"), text("javascript")];
    proof {
        lemma_items_view_index(names@);
        assert(items_view(names@) =~= seq![JsonV::Str("python"@), JsonV::Str("typescript"@), JsonV::Str("javascript"@)]);
    }
    object2("type", text("string"), "enum", Json::Array(names))
}

/// Every tool the server offers, in the order they are listed.
pub open spec fn tool_catalog() -> Seq<JsonV> {
    seq![
        tool_doc(
            "cortex_stats"@,
            "Platform counters: workflows, runs, functions, datasets, ingested volume."@,
            JsonV::Object(Seq::empty()),
            seq![],
        ),
        tool_doc(
            "execute_code"@,
            "Run a code snippet on the warm worker pool and get its result + logs. The code must define `handler(params, inputs)` (Python) or export it (JS/TS)."@,
            JsonV::Object(seq![("runtime"@, runtime_schema()), ("code"@, typed("string"@)), ("params"@, typed("object"@))]),
            seq!["runtime"@, "code"@],
        ),
        tool_doc(
            "query"@,
            "Run SQL. Default engine: embedded Polars over ingested datasets (dataset names are tables; dashes aliased to underscores; joins allowed). Pass `connector` to target a registered Postgres/ClickHouse/chDB source."@,
            JsonV::Object(seq![("sql"@, typed("string"@)), ("connector"@, typed("string"@)), ("limit"@, typed("integer"@))]),
            seq!["sql"@],
        ),
        tool_doc(
            "ingest"@,
            "Append records to a named dataset (creates it on first ingest). Workflows with an on_ingest trigger for the dataset run automatically."@,
            JsonV::Object(
                seq![
                    ("dataset"@, typed("string"@)),
                    ("records"@, JsonV::Object(seq![("type"@, JsonV::Str("array"@)), ("items"@, typed("object"@))])),
                ],
            ),
            seq!["dataset"@, "records"@],
        ),
        tool_doc(
            "list_datasets"@,
            "List ingested datasets with record/byte counts."@,
            JsonV::Object(Seq::empty()),
            seq![],
        ),
        tool_doc("list_workflows"@, "List workflows with their DAG specs."@, JsonV::Object(Seq::empty()), seq![]),
        tool_doc(
            "create_workflow"@,
            "Create or replace a workflow. `spec` is {name, params?, tasks: [{id, runtime, code, depends_on?, retries?, timeout_secs?}], triggers?: {every_secs?, on_ingest?}}. Task code defines `handler(params, inputs)`; `inputs` maps upstream task ids to their results."@,
            JsonV::Object(seq![("spec"@, typed("object"@))]),
            seq!["spec"@],
        ),
        tool_doc(
            "trigger_workflow"@,
            "Start a run of a workflow by id or name. Returns the run; poll get_run for completion."@,
            JsonV::Object(
                seq![
                    ("workflow"@, JsonV::Object(seq![("type"@, JsonV::Str("string"@)), ("description"@, JsonV::Str("workflow id or name"@))])),
                    ("params"@, typed("object"@)),
                ],
            ),
            seq!["workflow"@],
        ),
        tool_doc(
            "get_run"@,
            "Get a run's state plus every task's state, result, error, and logs."@,
            JsonV::Object(seq![("run_id"@, typed("string"@))]),
            seq!["run_id"@],
        ),
        tool_doc(
            "list_runs"@,
            "Recent runs, optionally filtered by workflow id."@,
            JsonV::Object(seq![("workflow_id"@, typed("string"@)), ("limit"@, typed("integer"@))]),
            seq![],
        ),
        tool_doc(
            "invoke_function"@,
            "Invoke a deployed serverless function with params."@,
            JsonV::Object(seq![("name"@, typed("string"@)), ("params"@, typed("object"@))]),
            seq!["name"@],
        ),
        tool_doc(
            "create_function"@,
            "Deploy (or update) a serverless function."@,
            JsonV::Object(
                seq![
                    ("name"@, typed("string"@)),
                    ("runtime"@, runtime_schema()),
                    ("code"@, typed("string"@)),
                    ("description"@, typed("string"@)),
                ],
            ),
            seq!["name"@, "runtime"@, "code"@],
        ),
        tool_doc(
            "create_notebook"@,
            "Create a notebook document with cells (markdown/code/sql) shown in the console."@,
            JsonV::Object(seq![("name"@, typed("string"@)), ("cells"@, typed("array"@))]),
            seq!["name"@],
        ),
    ]
}

/// Every tool the server offers.
pub fn tool_definitions() -> (v: Vec<Json>)
    ensures
        v@.len() == tool_catalog().len(),
        forall|i: int| 0 <= i < v@.len() ==> #[trigger] v@[i]@ == tool_catalog()[i],
{
    let mut v: Vec<Json> = Vec::new();
    let ghost c = tool_catalog();
    let r0: Vec<&str> = vec![];
    proof {
        assert(r0@.map_values(|s: &str| s@) =~= seq![]);
    }
    let t0 = tool(
        "cortex_stats",
        "Platform counters: workflows, runs, functions, datasets, ingested volume.",
        empty_object(),
        r0,
    );
    assert(t0@ == c[0]);
    v.push(t0);
    let r1: Vec<&str> = vec!["runtime", "code"];
    proof {
        assert(r1@.map_values(|s: &str| s@) =~= seq!["runtime"@, "code"@]);
    }
    let t1 = tool(
        "execute_code",
        "Run a code snippet on the warm worker pool and get its result + logs. The code must define `handler(params, inputs)` (Python) or export it (JS/TS).",
        object3("runtime", runtime_prop(), "code", typed_prop("string"), "params", typed_prop("object")),
        r1,
    );
    assert(t1@ == c[1]);
    v.push(t1);
    let r2: Vec<&str> = vec!["sql"];
    proof {
        assert(r2@.map_values(|s: &str| s@) =~= seq!["sql"@]);
    }
    let t2 = tool(
        "query",
        "Run SQL. Default engine: embedded Polars over ingested datasets (dataset names are tables; dashes aliased to underscores; joins allowed). Pass `connector` to target a registered Postgres/ClickHouse/chDB source.",
        object3("sql", typed_prop("string"), "connector", typed_prop("string"), "limit", typed_prop("integer")),
        r2,
    );
    assert(t2@ == c[2]);
    v.push(t2);
    let r3: Vec<&str> = vec!["dataset", "records"];
    proof {
        assert(r3@.map_values(|s: &str| s@) =~= seq!["dataset"@, "records"@]);
    }
    let t3 = tool(
        "ingest",
        "Append records to a named dataset (creates it on first ingest). Workflows with an on_ingest trigger for the dataset run automatically.",
        object2("dataset", typed_prop("string"), "records", object2("type", text("array"), "items", typed_prop("object"))),
        r3,
    );
    assert(t3@ == c[3]);
    v.push(t3);
    let r4: Vec<&str> = vec![];
    proof {
        assert(r4@.map_values(|s: &str| s@) =~= seq![]);
    }
    let t4 = tool("list_datasets", "List ingested datasets with record/byte counts.", empty_object(), r4);
    assert(t4@ == c[4]);
    v.push(t4);
    let r5: Vec<&str> = vec![];
    proof {
        assert(r5@.map_values(|s: &str| s@) =~= seq![]);
    }
    let t5 = tool("list_workflows", "List workflows with their DAG specs.", empty_object(), r5);
    assert(t5@ == c[5]);
    v.push(t5);
    let r6: Vec<&str> = vec!["spec"];
    proof {
        assert(r6@.map_values(|s: &str| s@) =~= seq!["spec"@]);
    }
    let t6 = tool(
        "create_workflow",
        "Create or replace a workflow. `spec` is {name, params?, tasks: [{id, runtime, code, depends_on?, retries?, timeout_secs?}], triggers?: {every_secs?, on_ingest?}}. Task code defines `handler(params, inputs)`; `inputs` maps upstream task ids to their results.",
        object1("spec", typed_prop("object")),
        r6,
    );
    assert(t6@ == c[6]);
    v.push(t6);
    let r7: Vec<&str> = vec!["workflow"];
    proof {
        assert(r7@.map_values(|s: &str| s@) =~= seq!["workflow"@]);
    }
    let t7 = tool(
        "trigger_workflow",
        "Start a run of a workflow by id or name. Returns the run; poll get_run for completion.",
        object2(
            "workflow",
            object2("type", text("string"), "description", text("workflow id or name")),
            "params",
            typed_prop("object"),
        ),
        r7,
    );
    assert(t7@ == c[7]);
    v.push(t7);
    let r8: Vec<&str> = vec!["run_id"];
    proof {
        assert(r8@.map_values(|s: &str| s@) =~= seq!["run_id"@]);
    }
    let t8 = tool(
        "get_run",
        "Get a run's state plus every task's state, result, error, and logs.",
        object1("run_id", typed_prop("string")),
        r8,
    );
    assert(t8@ == c[8]);
    v.push(t8);
    let r9: Vec<&str> = vec![];
    proof {
        assert(r9@.map_values(|s: &str| s@) =~= seq![]);
    }
    let t9 = tool(
        "list_runs",
        "Recent runs, optionally filtered by workflow id.",
        object2("workflow_id", typed_prop("string"), "limit", typed_prop("integer")),
        r9,
    );
    assert(t9@ == c[9]);
    v.push(t9);
    let r10: Vec<&str> = vec!["name"];
    proof {
        assert(r10@.map_values(|s: &str| s@) =~= seq!["name"@]);
    }
    let t10 = tool(
        "invoke_function",
        "Invoke a deployed serverless function with params.",
        object2("name", typed_prop("string"), "params", typed_prop("object")),
        r10,
    );
    assert(t10@ == c[10]);
    v.push(t10);
    let r11: Vec<&str> = vec!["name", "runtime", "code"];
    proof {
        assert(r11@.map_values(|s: &str| s@) =~= seq!["name"@, "runtime"@, "code"@]);
    }
    let t11 = tool(
        "create_function",
        "Deploy (or update) a serverless function.",
        object4(
            "name",
            typed_prop("string"),
            "runtime",
            runtime_prop(),
            "code",
            typed_prop("string"),
            "description",
            typed_prop("string"),
        ),
        r11,
    );
    assert(t11@ == c[11]);
    v.push(t11);
    let r12: Vec<&str> = vec!["name"];
    proof {
        assert(r12@.map_values(|s: &str| s@) =~= seq!["name"@]);
    }
    let t12 = tool(
        "create_notebook",
        "Create a notebook document with cells (markdown/code/sql) shown in the console.",
        object2("name", typed_prop("string"), "cells", typed_prop("array")),
        r12,
    );
    assert(t12@ == c[12]);
    v.push(t12);
    proof {
        assert forall|i: int| 0 <= i < v@.len() implies #[trigger] v@[i]@ == tool_catalog()[i] by {
            if i == 0 {
                assert(v@[i] == t0);
            } else if i == 1 {
                assert(v@[i] == t1);
            } else if i == 2 {
                assert(v@[i] == t2);
            } else if i == 3 {
                assert(v@[i] == t3);
            } else if i == 4 {
                assert(v@[i] == t4);
            } else if i == 5 {
                assert(v@[i] == t5);
            } else if i == 6 {
                assert(v@[i] == t6);
            } else if i == 7 {
                assert(v@[i] == t7);
            } else if i == 8 {
                assert(v@[i] == t8);
            } else if i == 9 {
                assert(v@[i] == t9);
            } else if i == 10 {
                assert(v@[i] == t10);
            } else if i == 11 {
                assert(v@[i] == t11);
            } else if i == 12 {
                assert(v@[i] == t12);
            }
        }
    }
    v
}

/// The reply to `tools/list`: the tools offered.
pub fn tools_list_result(tools: Vec<Json>) -> (r: Json)
    ensures
        r@ == JsonV::Object(seq![("tools"@, JsonV::Array(items_view(tools@)))]),
{
    object1("tools", Json::Array(tools))
}

/// Which tool a `tools/call` request names, and its arguments (an empty
/// object when it gives none).
pub fn tool_call_target(params: &Json) -> (r: Result<(String, Json), String>)
    ensures
        match str_field(params@, "name"@) {
            None => r matches Err(m) && m@ == "missing tool name"@,
            Some(n) => r matches Ok((name, args)) && name@ == n && args@ == (match get_spec(params@, "arguments"@) {
                Some(a) => a,
                None => JsonV::Object(Seq::empty()),
            }),
        },
{
    let nf = params.field("name");
    match nf.as_str() {
        None => Err(String::from_str("missing tool name")),
        Some(n) => {
            let args = match params.get("arguments") {
                Some(a) => a.deep_copy(),
                None => empty_object(),
            };
            Ok((String::from_str(n), args))
        },
    }
}

/// The reply to a tool call: its text, and whether the tool failed.
pub fn tool_result(text_out: String, is_error: bool) -> (r: Json)
    ensures
        r@ == JsonV::Object(
            seq![
                ("content"@, JsonV::Array(seq![JsonV::Object(seq![("type"@, JsonV::Str("text"@)), ("text"@, JsonV::Str(text_out@))])])),
                ("isError"@, JsonV::Bool(is_error)),
            ],
        ),
{
    let item = object2("type", text("text"), "text", Json::Str(text_out));
    let items = vec![item];
    proof {
        lemma_items_view_index(items@);
        assert(items_view(items@) =~= seq![items@[0]@]);
    }
    object2("content", Json::Array(items), "isError", Json::Bool(is_error))
}

/// The result of a `tools/call` whose tool ended with `outcome`: the
/// tool's value written as JSON text, or its error message, flagged by
/// `isError`.
pub open spec fn tool_reply_doc(outcome: Result<Seq<char>, Seq<char>>) -> JsonV {
    match outcome {
        Ok(t) => JsonV::Object(
            seq![
                ("content"@, JsonV::Array(seq![JsonV::Object(seq![("type"@, JsonV::Str("text"@)), ("text"@, JsonV::Str(t))])])),
                ("isError"@, JsonV::Bool(false)),
            ],
        ),
        Err(m) => JsonV::Object(
            seq![
                ("content"@, JsonV::Array(seq![JsonV::Object(seq![("type"@, JsonV::Str("text"@)), ("text"@, JsonV::Str(m))])])),
                ("isError"@, JsonV::Bool(true)),
            ],
        ),
    }
}

/// The result of a `tools/call` once its tool has run: `outcome` holds the
/// tool's value written as JSON text, or the message it failed with. A
/// failing tool is answered with a result flagged `isError`, never with a
/// JSON-RPC error.
pub fn tool_call_reply(outcome: Result<String, String>) -> (r: Json)
    ensures
        r@ == tool_reply_doc(
            match outcome {
                Ok(t) => Ok(t@),
                Err(m) => Err(m@),
            },
        ),
{
    match outcome {
        Ok(t) => tool_result(t, false),
        Err(m) => tool_result(m, true),
    }
}

/// Whatever a tool does, the JSON-RPC reply to its call carries a result and
/// no error, and the result's `isError` tells whether the tool failed; its
/// text is the tool's value, or its message.
pub proof fn lemma_tool_failure_is_a_result(id: JsonV, outcome: Result<Seq<char>, Seq<char>>)
    ensures
        get_spec(response_doc(id, Ok(tool_reply_doc(outcome))), "error"@) is None,
        get_spec(response_doc(id, Ok(tool_reply_doc(outcome))), "result"@) == Some(tool_reply_doc(outcome)),
        get_spec(tool_reply_doc(outcome), "isError"@) == Some(JsonV::Bool(outcome is Err)),
{
    reveal_strlit("error");
    reveal_strlit("result");
    reveal_strlit("jsonrpc");
    reveal_strlit("id");
    reveal_strlit("isError");
    reveal_strlit("content");
    let reply = tool_reply_doc(outcome);
    let m = seq![("jsonrpc"@, JsonV::Str("2.0"@)), ("id"@, id), ("result"@, reply)];
    assert(response_doc(id, Ok(reply)) == JsonV::Object(m));
    assert("jsonrpc"@ != "error"@) by {
        assert("jsonrpc"@[0] != "error"@[0]);
    }
    assert("id"@ != "error"@) by {
        assert("id"@[0] != "error"@[0]);
    }
    assert("result"@ != "error"@);
    assert(!has_key(m, "error"@)) by {
        assert forall|i: int| 0 <= i < m.len() implies m[i].0 != "error"@ by {
            assert(m[0].0 == "jsonrpc"@ && m[1].0 == "id"@ && m[2].0 == "result"@);
        }
    }
    assert("jsonrpc"@ != "result"@) by {
        assert("jsonrpc"@[0] != "result"@[0]);
    }
    assert("id"@ != "result"@) by {
        assert("id"@[0] != "result"@[0]);
    }
    assert(is_first_key(m, "result"@, 2));
    lemma_member_at(m, "result"@, 2);
    let rm = reply->Object_0;
    assert("content"@ != "isError"@) by {
        assert("content"@[0] != "isError"@[0]);
    }
    assert(is_first_key(rm, "isError"@, 1));
    lemma_member_at(rm, "isError"@, 1);
}

/// The runtime a document names: `python`, `typescript` or `javascript`.
pub open spec fn runtime_named(j: JsonV) -> Option<Runtime> {
    match j {
        JsonV::Str(s) => if s == "python"@ {
            Some(Runtime::Python)
        } else if s == "typescript"@ {
            Some(Runtime::Typescript)
        } else if s == "javascript"@ {
            Some(Runtime::Javascript)
        } else {
            None
        },
        _ => None,
    }
}

/// Reading a runtime from its lowercase wire name gives that runtime back,
/// and a document names a runtime only by that name.
pub proof fn lemma_runtime_named_by_wire_name(r: Runtime, j: JsonV)
    ensures
        runtime_named(JsonV::Str(runtime_name(r))) == Some(r),
        runtime_named(j) == Some(r) ==> j == JsonV::Str(runtime_name(r)),
{
    reveal_strlit("python");
    reveal_strlit("typescript");
    reveal_strlit("javascript");
    assert("python"@ != "typescript"@) by {
        assert("python"@[0] != "typescript"@[0]);
    }
    assert("python"@ != "javascript"@) by {
        assert("python"@[0] != "javascript"@[0]);
    }
    assert("typescript"@ != "javascript"@) by {
        assert("typescript"@[0] != "javascript"@[0]);
    }
}

/// The runtime a document names, if it names one.
pub fn runtime_from(j: &Json) -> (r: Option<Runtime>)
    ensures
        r == runtime_named(j@),
{
    match j.as_str() {
        Some(s) => if str_eq(s, "python") {
            Some(Runtime::Python)
        } else if str_eq(s, "typescript") {
            Some(Runtime::Typescript)
        } else if str_eq(s, "javascript") {
            Some(Runtime::Javascript)
        } else {
            None
        },
        None => None,
    }
}

/// A workflow, by id or by name.
#[derive(Debug, PartialEq, Eq)]
pub enum WorkflowRef {
    Id(Id),
    Name(String),
}

/// A checked tool call, ready to run.
#[derive(Debug)]
pub enum ToolCall {
    Stats,
    ExecuteCode { runtime: Runtime, code: String, params: Json },
    Query { sql: String, connector: Option<String>, limit: usize },
    Ingest { dataset: String, records: Vec<Json> },
    ListDatasets,
    ListWorkflows,
    /// The workflow spec document, still to be read as a spec.
    CreateWorkflow { spec: Json },
    TriggerWorkflow { workflow: WorkflowRef, params: Json },
    GetRun { run_id: Id },
    ListRuns { workflow_id: Option<Id>, limit: u32 },
    InvokeFunction { name: String, params: Json },
    /// The function spec document, still to be read as a spec.
    CreateFunction { spec: Json },
    CreateNotebook { name: String, cells: Json },
}

/// Why a tool call was refused.
#[derive(Debug)]
pub enum ToolError {
    /// A message for the caller.
    Message(String),
    /// The `runtime` argument, which names no runtime.
    BadRuntime(Json),
}

/// The `u64` a member of `args` holds, if it holds one.
pub open spec fn u64_field(args: JsonV, key: Seq<char>) -> Option<u64> {
    match field(args, key) {
        JsonV::Number(t) => if t.len() > 0 && t[0] == '+' {
            None
        } else {
            parsed_u64(t)
        },
        _ => None,
    }
}

/// `x` brought into `[lo, hi]`.
pub open spec fn clamp(x: int, lo: int, hi: int) -> int {
    if x < lo {
        lo
    } else if x > hi {
        hi
    } else {
        x
    }
}

/// Rows a `query` call returns at most when it gives no limit.
pub const QUERY_DEFAULT_LIMIT: u64 = 1000;

/// The largest row limit a `query` call may ask for.
pub const QUERY_MAX_LIMIT: u64 = 100_000;

/// Runs `list_runs` returns when it gives no limit.
pub const RUNS_DEFAULT_LIMIT: u64 = 20;

/// The largest limit `list_runs` may ask for.
pub const RUNS_MAX_LIMIT: u64 = 200;

/// A `u64` brought into `[lo, hi]`.
pub fn clamp_u64(x: u64, lo: u64, hi: u64) -> (r: u64)
    requires
        lo <= hi,
    ensures
        r == clamp(x as int, lo as int, hi as int),
{
    if x < lo {
        lo
    } else if x > hi {
        hi
    } else {
        x
    }
}

/// The document a `create_function` call is read from: its name, runtime
/// and code as given (null when missing), and its description (null when
/// missing).
pub open spec fn function_doc(args: JsonV) -> JsonV {
    JsonV::Object(
        seq![
            ("name"@, field(args, "name"@)),
            ("runtime"@, field(args, "runtime"@)),
            ("code"@, field(args, "code"@)),
            ("description"@, field(args, "description"@)),
        ],
    )
}

/// The text of a string member, as an owned string.
fn str_member(args: &Json, key: &str) -> (r: Option<String>)
    ensures
        match r {
            Some(s) => str_field(args@, key@) == Some(s@),
            None => str_field(args@, key@) is None,
        },
{
    let f = args.field(key);
    match f.as_str() {
        Some(s) => Some(String::from_str(s)),
        None => None,
    }
}

/// The connector a checked call targets: that of a `query` call, as text.
pub open spec fn query_connector(r: Result<ToolCall, ToolError>) -> Option<Seq<char>> {
    match r {
        Ok(ToolCall::Query { connector: Some(c), .. }) => Some(c@),
        _ => None,
    }
}

/// The runtime a checked call runs code in: that of an `execute_code` call.
pub open spec fn code_runtime(r: Result<ToolCall, ToolError>) -> Option<Runtime> {
    match r {
        Ok(ToolCall::ExecuteCode { runtime, .. }) => Some(runtime),
        _ => None,
    }
}

/// A checked call of tool `name` with arguments `args`.
pub open spec fn tool_parsed(name: Seq<char>, args: JsonV, r: Result<ToolCall, ToolError>) -> bool {
    if name == "cortex_stats"@ {
        r matches Ok(ToolCall::Stats)
    } else if name == "execute_code"@ {
        match runtime_named(field(args, "runtime"@)) {
            None => r matches Err(ToolError::BadRuntime(j)) && j@ == field(args, "runtime"@),
            Some(rt) => match str_field(args, "code"@) {
                None => r matches Err(ToolError::Message(m)) && m@ == "missing code"@,
                Some(c) => r matches Ok(ToolCall::ExecuteCode { runtime, code, params }) && runtime == rt
                    && code@ == c && params@ == field(args, "params"@),
            },
        }
    } else if name == "query"@ {
        match str_field(args, "sql"@) {
            None => r matches Err(ToolError::Message(m)) && m@ == "missing sql"@,
            Some(q) => r matches Ok(ToolCall::Query { sql, connector, limit }) && sql@ == q && limit == clamp(
                match u64_field(args, "limit"@) {
                    Some(n) => n as int,
                    None => QUERY_DEFAULT_LIMIT as int,
                },
                1,
                QUERY_MAX_LIMIT as int,
            ) && match str_field(args, "connector"@) {
                Some(c) => connector matches Some(cn) && cn@ == c,
                None => connector is None,
            },
        }
    } else if name == "ingest"@ {
        match str_field(args, "dataset"@) {
            None => r matches Err(ToolError::Message(m)) && m@ == "missing dataset"@,
            Some(d) => if !safe_name(d) {
                r matches Err(ToolError::Message(m)) && m@ == bad_name_text("dataset"@)
            } else {
                match field(args, "records"@) {
                    JsonV::Array(items) => r matches Ok(ToolCall::Ingest { dataset, records }) && dataset@ == d
                        && items_view(records@) == items,
                    _ => r matches Err(ToolError::Message(m)) && m@ == "records must be an array"@,
                }
            },
        }
    } else if name == "list_datasets"@ {
        r matches Ok(ToolCall::ListDatasets)
    } else if name == "list_workflows"@ {
        r matches Ok(ToolCall::ListWorkflows)
    } else if name == "create_workflow"@ {
        r matches Ok(ToolCall::CreateWorkflow { spec }) && spec@ == field(args, "spec"@)
    } else if name == "trigger_workflow"@ {
        match str_field(args, "workflow"@) {
            None => r matches Err(ToolError::Message(m)) && m@ == "missing workflow"@,
            Some(k) => r matches Ok(ToolCall::TriggerWorkflow { workflow, params }) && params@ == field(
                args,
                "params"@,
            ) && match uuid_value(k) {
                Some(id) => workflow == WorkflowRef::Id(id),
                None => workflow matches WorkflowRef::Name(n) && n@ == k,
            },
        }
    } else if name == "get_run"@ {
        match str_field(args, "run_id"@) {
            Some(k) if uuid_value(k) is Some => r matches Ok(ToolCall::GetRun { run_id }) && Some(run_id)
                == uuid_value(k),
            _ => r matches Err(ToolError::Message(m)) && m@ == "run_id must be a uuid"@,
        }
    } else if name == "list_runs"@ {
        r matches Ok(ToolCall::ListRuns { workflow_id, limit }) && workflow_id == match str_field(
            args,
            "workflow_id"@,
        ) {
            Some(k) => uuid_value(k),
            None => None,
        } && limit == clamp(
            match u64_field(args, "limit"@) {
                Some(n) => n as int,
                None => RUNS_DEFAULT_LIMIT as int,
            },
            1,
            RUNS_MAX_LIMIT as int,
        )
    } else if name == "invoke_function"@ {
        match str_field(args, "name"@) {
            None => r matches Err(ToolError::Message(m)) && m@ == "missing name"@,
            Some(n) => r matches Ok(ToolCall::InvokeFunction { name: fname, params }) && fname@ == n && params@
                == field(args, "params"@),
        }
    } else if name == "create_function"@ {
        match str_field(args, "name"@) {
            Some(n) if !safe_name(n) => r matches Err(ToolError::Message(m)) && m@ == bad_name_text("function"@),
            _ => r matches Ok(ToolCall::CreateFunction { spec }) && spec@ == function_doc(args),
        }
    } else if name == "create_notebook"@ {
        match str_field(args, "name"@) {
            None => r matches Err(ToolError::Message(m)) && m@ == "missing name"@,
            Some(n) => r matches Ok(ToolCall::CreateNotebook { name: nb, cells }) && nb@ == n && cells@ == (
            match get_spec(args, "cells"@) {
                Some(c) => c,
                None => JsonV::Array(Seq::empty()),
            }),
        }
    } else {
        r matches Err(ToolError::Message(m)) && m@ == "unknown tool: "@ + name
    }
}

/// A `query` call with its SQL targets exactly the connector its arguments
/// name: a string member `connector` is the connector the query is routed
/// to, and without one the query runs on the datasets.
pub proof fn lemma_query_targets_named_connector(args: JsonV, r: Result<ToolCall, ToolError>)
    requires
        tool_parsed("query"@, args, r),
        field(args, "sql"@) is Str,
    ensures
        r matches Ok(ToolCall::Query { sql, .. }) && JsonV::Str(sql@) == field(args, "sql"@),
        forall|c: Seq<char>| field(args, "connector"@) == JsonV::Str(c) ==> query_connector(r) == Some(c),
        !(field(args, "connector"@) is Str) ==> query_connector(r) is None,
{
    reveal_strlit("query");
    reveal_strlit("cortex_stats");
    reveal_strlit("execute_code");
    assert("cortex_stats"@ != "query"@) by {
        assert("cortex_stats"@[0] != "query"@[0]);
    }
    assert("execute_code"@ != "query"@) by {
        assert("execute_code"@[0] != "query"@[0]);
    }
}

/// An `execute_code` call with its code runs in exactly the runtime whose
/// wire name its `runtime` member gives.
pub proof fn lemma_code_runs_in_named_runtime(args: JsonV, rt: Runtime, r: Result<ToolCall, ToolError>)
    requires
        tool_parsed("execute_code"@, args, r),
        field(args, "runtime"@) == JsonV::Str(runtime_name(rt)),
        field(args, "code"@) is Str,
    ensures
        code_runtime(r) == Some(rt),
{
    reveal_strlit("cortex_stats");
    reveal_strlit("execute_code");
    assert("cortex_stats"@ != "execute_code"@) by {
        assert("cortex_stats"@[0] != "execute_code"@[0]);
    }
    lemma_runtime_named_by_wire_name(rt, field(args, "runtime"@));
}

/// Check a call of tool `name` with arguments `args`.
pub fn parse_tool(name: &str, args: &Json) -> (r: Result<ToolCall, ToolError>)
    ensures
        tool_parsed(name@, args@, r),
{
    if str_eq(name, "cortex_stats") {
        Ok(ToolCall::Stats)
    } else if str_eq(name, "execute_code") {
        let rt = args.field("runtime");
        match runtime_from(&rt) {
            None => Err(ToolError::BadRuntime(rt)),
            Some(runtime) => match str_member(args, "code") {
                None => Err(ToolError::Message(String::from_str("missing code"))),
                Some(code) => Ok(ToolCall::ExecuteCode { runtime, code, params: args.field("params") }),
            },
        }
    } else if str_eq(name, "query") {
        match str_member(args, "sql") {
            None => Err(ToolError::Message(String::from_str("missing sql"))),
            Some(sql) => {
                let lf = args.field("limit");
                let asked = match lf.as_u64() {
                    Some(n) => n,
                    None => QUERY_DEFAULT_LIMIT,
                };
                let limit = clamp_u64(asked, 1, QUERY_MAX_LIMIT) as usize;
                let connector = str_member(args, "connector");
                Ok(ToolCall::Query { sql, connector, limit })
            },
        }
    } else if str_eq(name, "ingest") {
        match str_member(args, "dataset") {
            None => Err(ToolError::Message(String::from_str("missing dataset"))),
            Some(dataset) => {
                if !is_safe_name(dataset.as_str()) {
                    return Err(ToolError::Message(bad_name_message("dataset")));
                }
                match args.field("records") {
                    Json::Array(records) => Ok(ToolCall::Ingest { dataset, records }),
                    _ => Err(ToolError::Message(String::from_str("records must be an array"))),
                }
            },
        }
    } else if str_eq(name, "list_datasets") {
        Ok(ToolCall::ListDatasets)
    } else if str_eq(name, "list_workflows") {
        Ok(ToolCall::ListWorkflows)
    } else if str_eq(name, "create_workflow") {
        Ok(ToolCall::CreateWorkflow { spec: args.field("spec") })
    } else if str_eq(name, "trigger_workflow") {
        match str_member(args, "workflow") {
            None => Err(ToolError::Message(String::from_str("missing workflow"))),
            Some(key) => {
                let workflow = match parse_uuid(key.as_str()) {
                    Some(id) => WorkflowRef::Id(id),
                    None => WorkflowRef::Name(key),
                };
                Ok(ToolCall::TriggerWorkflow { workflow, params: args.field("params") })
            },
        }
    } else if str_eq(name, "get_run") {
        let id = match str_member(args, "run_id") {
            Some(k) => parse_uuid(k.as_str()),
            None => None,
        };
        match id {
            Some(run_id) => Ok(ToolCall::GetRun { run_id }),
            None => Err(ToolError::Message(String::from_str("run_id must be a uuid"))),
        }
    } else if str_eq(name, "list_runs") {
        let workflow_id = match str_member(args, "workflow_id") {
            Some(k) => parse_uuid(k.as_str()),
            None => None,
        };
        let lf = args.field("limit");
        let asked = match lf.as_u64() {
            Some(n) => n,
            None => RUNS_DEFAULT_LIMIT,
        };
        let limit = clamp_u64(asked, 1, RUNS_MAX_LIMIT) as u32;
        Ok(ToolCall::ListRuns { workflow_id, limit })
    } else if str_eq(name, "invoke_function") {
        match str_member(args, "name") {
            None => Err(ToolError::Message(String::from_str("missing name"))),
            Some(fname) => Ok(ToolCall::InvokeFunction { name: fname, params: args.field("params") }),
        }
    } else if str_eq(name, "create_function") {
        if let Some(n) = str_member(args, "name") {
            if !is_safe_name(n.as_str()) {
                return Err(ToolError::Message(bad_name_message("function")));
            }
        }
        let spec = object4(
            "name",
            args.field("name"),
            "runtime",
            args.field("runtime"),
            "code",
            args.field("code"),
            "description",
            args.field("description"),
        );
        Ok(ToolCall::CreateFunction { spec })
    } else if str_eq(name, "create_notebook") {
        match str_member(args, "name") {
            None => Err(ToolError::Message(String::from_str("missing name"))),
            Some(nb) => {
                let cells = match args.get("cells") {
                    Some(c) => c.deep_copy(),
                    None => empty_array(),
                };
                Ok(ToolCall::CreateNotebook { name: nb, cells })
            },
        }
    } else {
        Err(ToolError::Message(String::from_str("unknown tool: ").concat(name)))
    }
}

/// The error for a workflow name that no workflow has.
pub fn no_workflow_named(key: &str) -> (m: String)
    ensures
        m@ == "no workflow named `"@ + key@ + "`"@,
{
    String::from_str("no workflow named `").concat(key).concat("`")
}

/// The lines `logs` as a document array of strings.
pub fn text_list(logs: &Vec<String>) -> (j: Json)
    ensures
        j@ == text_array(logs@.map_values(|s: String| s@)),
{
    let mut items: Vec<Json> = Vec::new();
    let mut i: usize = 0;
    while i < logs.len()
        invariant
            i <= logs@.len(),
            items@.len() == i,
            items_view(items@) == logs@.subrange(0, i as int).map_values(|s: String| JsonV::Str(s@)),
        decreases logs.len() - i,
    {
        let ghost before = items@;
        items.push(Json::Str(logs[i].clone()));
        proof {
            crate::json::lemma_items_view_push(before, items@[i as int]);
            assert(items@ == before.push(items@[i as int]));
            assert(logs@.subrange(0, i + 1).map_values(|s: String| JsonV::Str(s@)) =~= logs@.subrange(
                0,
                i as int,
            ).map_values(|s: String| JsonV::Str(s@)).push(JsonV::Str(logs@[i as int]@)));
        }
        i = i + 1;
    }
    proof {
        assert(logs@.subrange(0, logs@.len() as int) =~= logs@);
        assert(logs@.map_values(|s: String| JsonV::Str(s@)) =~= logs@.map_values(|s: String| s@).map_values(
            |n: Seq<char>| JsonV::Str(n),
        ));
    }
    Json::Array(items)
}

/// The reply of a tool that ran code: its result and logs.
pub fn execution_reply(result: Json, logs: &Vec<String>) -> (r: Json)
    ensures
        r@ == JsonV::Object(
            seq![("result"@, result@), ("logs"@, text_array(logs@.map_values(|s: String| s@)))],
        ),
{
    object2("result", result, "logs", text_list(logs))
}

/// The reply of a query: its rows and whether they were cut at the limit.
pub fn rows_reply(rows: Json, truncated: bool) -> (r: Json)
    ensures
        r@ == JsonV::Object(seq![("rows"@, rows@), ("truncated"@, JsonV::Bool(truncated))]),
{
    object2("rows", rows, "truncated", Json::Bool(truncated))
}

} // verus!
