use cortex::json::Json;
use cortex::mcp::{
    classify, initialize_result, no_workflow_named, parse_tool, route_method, rpc_response, tool_call_reply,
    tool_call_target,
    tool_definitions, tool_result, tools_list_result, McpMessage, McpMethod, ToolCall, ToolError, WorkflowRef,
};
use cortex::model::Runtime;

fn obj(entries: Vec<(&str, Json)>) -> Json {
    Json::Object(entries.into_iter().map(|(k, v)| (k.to_string(), v)).collect())
}

fn s(t: &str) -> Json {
    Json::Str(t.into())
}

fn message(r: Result<ToolCall, ToolError>) -> String {
    match r {
        Err(ToolError::Message(m)) => m,
        other => panic!("expected a message, got {other:?}"),
    }
}

#[test]
fn messages_without_id_are_notifications() {
    assert!(matches!(classify(&obj(vec![("method", s("notifications/initialized"))])), McpMessage::Notification));
    assert!(matches!(classify(&Json::Null), McpMessage::Notification));
    match classify(&obj(vec![("id", Json::Number("1".into())), ("method", s("ping"))])) {
        McpMessage::Request { id, method, params } => {
            assert_eq!(id, Json::Number("1".into()));
            assert_eq!(method, "ping");
            assert_eq!(params, Json::Null);
        }
        other => panic!("unexpected {other:?}"),
    }
    match classify(&obj(vec![("id", Json::Null), ("method", Json::Number("3".into()))])) {
        McpMessage::Request { method, .. } => assert_eq!(method, ""),
        other => panic!("unexpected {other:?}"),
    }
}

#[test]
fn methods_are_routed() {
    assert_eq!(route_method("initialize"), McpMethod::Initialize);
    assert_eq!(route_method("ping"), McpMethod::Ping);
    assert_eq!(route_method("tools/list"), McpMethod::ToolsList);
    assert_eq!(route_method("tools/call"), McpMethod::ToolsCall);
    assert_eq!(route_method("resources/list"), McpMethod::Unknown);
}

#[test]
fn responses_follow_json_rpc() {
    let ok = rpc_response(Json::Number("7".into()), Ok(obj(vec![])));
    assert_eq!(ok, obj(vec![("jsonrpc", s("2.0")), ("id", Json::Number("7".into())), ("result", obj(vec![]))]));
    let err = rpc_response(s("x"), Err("method not found: nope".into()));
    assert_eq!(
        err,
        obj(vec![
            ("jsonrpc", s("2.0")),
            ("id", s("x")),
            (
                "error",
                obj(vec![("code", Json::Number("-32601".into())), ("message", s("method not found: nope"))])
            ),
        ])
    );
}

#[test]
fn initialize_reports_protocol_and_version() {
    let r = initialize_result("0.1.0");
    assert_eq!(r.get("protocolVersion"), Some(&s("2025-06-18")));
    assert_eq!(r.get("serverInfo").unwrap().get("version"), Some(&s("0.1.0")));
}

#[test]
fn thirteen_tools_are_offered() {
    let tools = tool_definitions();
    assert_eq!(tools.len(), 13);
    assert_eq!(tools[0].get("name"), Some(&s("cortex_stats")));
    assert_eq!(tools[12].get("name"), Some(&s("create_notebook")));
    let schema = tools[1].get("inputSchema").unwrap();
    assert_eq!(schema.get("required"), Some(&Json::Array(vec![s("runtime"), s("code")])));
}

#[test]
fn tool_calls_name_a_tool() {
    assert_eq!(tool_call_target(&obj(vec![])), Err("missing tool name".to_string()));
    let (name, args) = tool_call_target(&obj(vec![("name", s("ping"))])).unwrap();
    assert_eq!(name, "ping");
    assert_eq!(args, obj(vec![]));
}

#[test]
fn tool_results_wrap_text() {
    assert_eq!(
        tool_result("{}".into(), true),
        obj(vec![
            ("content", Json::Array(vec![obj(vec![("type", s("text")), ("text", s("{}"))])])),
            ("isError", Json::Bool(true)),
        ])
    );
}

#[test]
fn execute_code_needs_runtime_and_code() {
    match parse_tool("execute_code", &obj(vec![("runtime", s("python")), ("code", s("x"))])).unwrap() {
        ToolCall::ExecuteCode { runtime, code, params } => {
            assert_eq!(runtime, Runtime::Python);
            assert_eq!(code, "x");
            assert_eq!(params, Json::Null);
        }
        other => panic!("unexpected {other:?}"),
    }
    assert!(matches!(
        parse_tool("execute_code", &obj(vec![("runtime", s("ruby"))])),
        Err(ToolError::BadRuntime(Json::Str(_)))
    ));
    assert_eq!(message(parse_tool("execute_code", &obj(vec![("runtime", s("javascript"))]))), "missing code");
}

#[test]
fn query_limits_are_clamped() {
    let q = |limit: Json| match parse_tool("query", &obj(vec![("sql", s("SELECT 1")), ("limit", limit)])).unwrap() {
        ToolCall::Query { limit, connector, .. } => {
            assert_eq!(connector, None);
            limit
        }
        other => panic!("unexpected {other:?}"),
    };
    assert_eq!(q(Json::Null), 1000);
    assert_eq!(q(Json::Number("0".into())), 1);
    assert_eq!(q(Json::Number("500".into())), 500);
    assert_eq!(q(Json::Number("999999".into())), 100_000);
    assert_eq!(q(Json::Number("2.5".into())), 1000);
    assert_eq!(message(parse_tool("query", &obj(vec![]))), "missing sql");
}

#[test]
fn ingest_checks_dataset_and_records() {
    assert_eq!(message(parse_tool("ingest", &obj(vec![]))), "missing dataset");
    assert_eq!(
        message(parse_tool("ingest", &obj(vec![("dataset", s("bad name"))]))),
        "dataset name must match [a-zA-Z0-9_-]{1,64}"
    );
    assert_eq!(message(parse_tool("ingest", &obj(vec![("dataset", s("ok"))]))), "records must be an array");
    match parse_tool("ingest", &obj(vec![("dataset", s("ok")), ("records", Json::Array(vec![obj(vec![])]))])).unwrap() {
        ToolCall::Ingest { dataset, records } => {
            assert_eq!(dataset, "ok");
            assert_eq!(records.len(), 1);
        }
        other => panic!("unexpected {other:?}"),
    }
}

#[test]
fn workflows_are_referenced_by_id_or_name() {
    let id = "67e55044-10b1-426f-9247-bb680e5fe0c8";
    match parse_tool("trigger_workflow", &obj(vec![("workflow", s(id))])).unwrap() {
        ToolCall::TriggerWorkflow { workflow, params } => {
            assert_eq!(workflow, WorkflowRef::Id(0x67e5504410b1426f9247bb680e5fe0c8));
            assert_eq!(params, Json::Null);
        }
        other => panic!("unexpected {other:?}"),
    }
    match parse_tool("trigger_workflow", &obj(vec![("workflow", s("nightly"))])).unwrap() {
        ToolCall::TriggerWorkflow { workflow, .. } => assert_eq!(workflow, WorkflowRef::Name("nightly".into())),
        other => panic!("unexpected {other:?}"),
    }
    assert_eq!(message(parse_tool("trigger_workflow", &obj(vec![]))), "missing workflow");
    assert_eq!(no_workflow_named("nightly"), "no workflow named `nightly`");
}

#[test]
fn runs_are_found_by_uuid() {
    assert_eq!(message(parse_tool("get_run", &obj(vec![("run_id", s("nope"))]))), "run_id must be a uuid");
    match parse_tool("list_runs", &obj(vec![("workflow_id", s("nope")), ("limit", Json::Number("900".into()))])).unwrap() {
        ToolCall::ListRuns { workflow_id, limit } => {
            assert_eq!(workflow_id, None);
            assert_eq!(limit, 200);
        }
        other => panic!("unexpected {other:?}"),
    }
    match parse_tool("list_runs", &obj(vec![])).unwrap() {
        ToolCall::ListRuns { limit, .. } => assert_eq!(limit, 20),
        other => panic!("unexpected {other:?}"),
    }
}

#[test]
fn functions_and_notebooks() {
    assert_eq!(
        message(parse_tool("create_function", &obj(vec![("name", s("a b"))]))),
        "function name must match [a-zA-Z0-9_-]{1,64}"
    );
    match parse_tool("create_function", &obj(vec![("name", s("f")), ("code", s("c"))])).unwrap() {
        ToolCall::CreateFunction { spec } => assert_eq!(
            spec,
            obj(vec![("name", s("f")), ("runtime", Json::Null), ("code", s("c")), ("description", Json::Null)])
        ),
        other => panic!("unexpected {other:?}"),
    }
    match parse_tool("create_notebook", &obj(vec![("name", s("nb"))])).unwrap() {
        ToolCall::CreateNotebook { name, cells } => {
            assert_eq!(name, "nb");
            assert_eq!(cells, Json::Array(vec![]));
        }
        other => panic!("unexpected {other:?}"),
    }
    assert_eq!(message(parse_tool("invoke_function", &obj(vec![]))), "missing name");
    assert_eq!(message(parse_tool("teleport", &obj(vec![]))), "unknown tool: teleport");
    assert!(matches!(parse_tool("cortex_stats", &obj(vec![])), Ok(ToolCall::Stats)));
}

#[test]
fn tools_list_wraps_the_definitions() {
    let r = tools_list_result(tool_definitions());
    match r.get("tools") {
        Some(Json::Array(items)) => assert_eq!(items.len(), 13),
        other => panic!("unexpected {other:?}"),
    }
}

#[test]
fn failing_tools_are_reported_in_the_result() {
    let ok = tool_call_reply(Ok("{\"a\":1}".to_string()));
    assert_eq!(ok, tool_result("{\"a\":1}".to_string(), false));
    let failed = tool_call_reply(Err("no such tool: x".to_string()));
    assert_eq!(failed, tool_result("no such tool: x".to_string(), true));
}
