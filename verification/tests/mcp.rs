use dwara_core::json::{parse_json, Json};
use dwara_core::mcp::{
    validate_arguments, AgentIdentity, McpServer, MockToolHandler, Permission, ToolCallRequest,
};

fn json(text: &str) -> Json {
    parse_json(text).unwrap()
}

fn call(name: &str, arguments: &str) -> ToolCallRequest {
    ToolCallRequest { name: name.to_string(), arguments: json(arguments) }
}

#[test]
fn server_has_standard_tools() {
    let server = McpServer::new();
    assert!(server.tool_count() >= 10);

    assert!(server.get_tool("list_routes").is_some());
    assert!(server.get_tool("get_route").is_some());
    assert!(server.get_tool("create_route").is_some());
    assert!(server.get_tool("update_route").is_some());
    assert!(server.get_tool("delete_route").is_some());
    assert!(server.get_tool("list_services").is_some());
    assert!(server.get_tool("get_stats").is_some());
    assert!(server.get_tool("get_health").is_some());
    assert!(server.get_tool("get_config").is_some());
    assert!(server.get_tool("purge_cache").is_some());
}

#[test]
fn tool_definitions_have_permissions() {
    let server = McpServer::new();

    assert_eq!(
        server.get_tool("list_routes").unwrap().required_permission,
        Permission::Read
    );
    assert_eq!(
        server.get_tool("create_route").unwrap().required_permission,
        Permission::Write
    );
    assert_eq!(
        server.get_tool("delete_route").unwrap().required_permission,
        Permission::Write
    );
    assert_eq!(
        server.get_tool("purge_cache").unwrap().required_permission,
        Permission::Admin
    );
}

#[test]
fn agent_read_only_can_list_routes() {
    let server = McpServer::new();
    let agent = AgentIdentity::read_only("agent-1");

    let tools = server.list_tools_for(&agent);
    assert!(tools.iter().any(|t| t.name == "list_routes"));
    assert!(!tools.iter().any(|t| t.name == "create_route"));
    assert!(!tools.iter().any(|t| t.name == "purge_cache"));
}

#[test]
fn agent_read_write_can_create_but_not_purge() {
    let server = McpServer::new();
    let agent = AgentIdentity::read_write("agent-1");

    let tools = server.list_tools_for(&agent);
    assert!(tools.iter().any(|t| t.name == "list_routes"));
    assert!(tools.iter().any(|t| t.name == "create_route"));
    assert!(!tools.iter().any(|t| t.name == "purge_cache"));
}

#[test]
fn agent_admin_can_do_everything() {
    let server = McpServer::new();
    let agent = AgentIdentity::admin("agent-1");

    let tools = server.list_tools_for(&agent);
    assert!(tools.iter().any(|t| t.name == "list_routes"));
    assert!(tools.iter().any(|t| t.name == "create_route"));
    assert!(tools.iter().any(|t| t.name == "purge_cache"));
}

#[test]
fn execute_unknown_tool() {
    let server = McpServer::new();
    let agent = AgentIdentity::admin("agent-1");
    let handler = MockToolHandler::new();

    let response = server.execute(&call("nonexistent", "{}"), &agent, &handler);
    assert!(!response.success);
    assert_eq!(response.error_code, Some("unknown_tool".to_string()));
}

#[test]
fn execute_permission_denied() {
    let server = McpServer::new();
    let agent = AgentIdentity::read_only("agent-1");
    let handler = MockToolHandler::new();

    let request = call(
        "create_route",
        r#"{"name": "test-route", "service": "test-service", "path": "/test"}"#,
    );

    let response = server.execute(&request, &agent, &handler);
    assert!(!response.success);
    assert_eq!(response.error_code, Some("permission_denied".to_string()));
}

#[test]
fn execute_read_tool_succeeds() {
    let server = McpServer::new();
    let agent = AgentIdentity::read_only("agent-1");
    let handler = MockToolHandler::new()
        .with_response("list_routes", json(r#"{"routes": ["route-1", "route-2"]}"#));

    let response = server.execute(&call("list_routes", "{}"), &agent, &handler);
    assert!(response.success);
    assert!(response.result.get("routes").is_some());
}

#[test]
fn execute_write_tool_succeeds_with_write_perm() {
    let server = McpServer::new();
    let agent = AgentIdentity::read_write("agent-1");
    let handler =
        MockToolHandler::new().with_response("create_route", json(r#"{"created": true}"#));

    let request = call(
        "create_route",
        r#"{"name": "test-route", "service": "test-service", "path": "/test"}"#,
    );

    let response = server.execute(&request, &agent, &handler);
    assert!(response.success);
    assert_eq!(response.result.get("created"), Some(&Json::Bool(true)));
}

#[test]
fn execute_admin_tool_succeeds_with_admin_perm() {
    let server = McpServer::new();
    let agent = AgentIdentity::admin("agent-1");
    let handler = MockToolHandler::new().with_response("purge_cache", json(r#"{"purged": true}"#));

    let response = server.execute(&call("purge_cache", r#"{"route": "all"}"#), &agent, &handler);
    assert!(response.success);
}

#[test]
fn execute_admin_tool_denied_without_admin_perm() {
    let server = McpServer::new();
    let agent = AgentIdentity::read_write("agent-1");
    let handler = MockToolHandler::new();

    let response = server.execute(&call("purge_cache", r#"{"route": "all"}"#), &agent, &handler);
    assert!(!response.success);
    assert_eq!(response.error_code, Some("permission_denied".to_string()));
}

#[test]
fn execute_missing_required_field() {
    let server = McpServer::new();
    let agent = AgentIdentity::admin("agent-1");
    let handler = MockToolHandler::new();

    // service and path are missing
    let request = call("create_route", r#"{"name": "test-route"}"#);

    let response = server.execute(&request, &agent, &handler);
    assert!(!response.success);
    assert_eq!(response.error_code, Some("invalid_arguments".to_string()));
}

#[test]
fn execute_unknown_field_rejected() {
    let server = McpServer::new();
    let agent = AgentIdentity::admin("agent-1");
    let handler = MockToolHandler::new();

    let request = call(
        "create_route",
        r#"{"name": "test-route", "service": "svc", "path": "/test",
            "unknown_field": "should be rejected"}"#,
    );

    let response = server.execute(&request, &agent, &handler);
    assert!(!response.success);
    assert_eq!(response.error_code, Some("invalid_arguments".to_string()));
}

#[test]
fn done_when_mcp_client_creates_route_reads_stats_denied_out_of_scope() {
    let server = McpServer::new();
    let agent = AgentIdentity::read_write("mcp-client");
    let handler = MockToolHandler::new()
        .with_response("create_route", json(r#"{"created": true, "route": "api-v2"}"#))
        .with_response("get_stats", json(r#"{"requests_total": 12345, "errors_total": 10}"#));

    // 1. Create a route (write permission -- should succeed).
    let create_req = call(
        "create_route",
        r#"{"name": "api-v2", "service": "backend-v2", "path": "/api/v2"}"#,
    );
    let create_resp = server.execute(&create_req, &agent, &handler);
    assert!(create_resp.success);
    assert_eq!(create_resp.result.get("created"), Some(&Json::Bool(true)));

    // 2. Read stats (read permission -- should succeed).
    let stats_resp = server.execute(&call("get_stats", "{}"), &agent, &handler);
    assert!(stats_resp.success);
    assert_eq!(
        stats_resp.result.get("requests_total"),
        Some(&Json::Number("12345".to_string()))
    );

    // 3. Purge cache (admin permission -- should be denied).
    let purge_resp = server.execute(&call("purge_cache", r#"{"route": "all"}"#), &agent, &handler);
    assert!(!purge_resp.success);
    assert_eq!(purge_resp.error_code, Some("permission_denied".to_string()));
}

#[test]
fn agent_has_permission() {
    let agent = AgentIdentity::read_write("test");
    assert!(agent.has_permission(Permission::Read));
    assert!(agent.has_permission(Permission::Write));
    assert!(!agent.has_permission(Permission::Admin));
}

#[test]
fn list_tools_returns_all() {
    let server = McpServer::new();
    let tools = server.list_tools();
    assert_eq!(tools.len(), server.tool_count());
}

#[test]
fn list_tools_for_read_only_filters_correctly() {
    let server = McpServer::new();
    let agent = AgentIdentity::read_only("test");
    let tools = server.list_tools_for(&agent);

    // All tools should be Read permission.
    assert!(tools
        .iter()
        .all(|t| t.required_permission == Permission::Read));
    // No Write or Admin tools.
    assert!(!tools
        .iter()
        .any(|t| t.required_permission == Permission::Write));
    assert!(!tools
        .iter()
        .any(|t| t.required_permission == Permission::Admin));
}

#[test]
fn standard_tools_have_distinct_names() {
    let server = McpServer::new();
    let mut names: Vec<String> = server.list_tools().iter().map(|t| t.name.clone()).collect();
    names.sort();
    names.dedup();
    assert_eq!(names.len(), server.tool_count());
}

#[test]
fn arguments_are_held_against_the_schema() {
    let schema = json(r#"{"type": "object", "properties": {"a": {"type": "string"}}, "required": ["a"], "additionalProperties": false}"#);
    assert!(validate_arguments(&schema, &json(r#"{"a": "x"}"#)).is_ok());
    assert!(validate_arguments(&schema, &json("{}")).is_err());
    assert!(validate_arguments(&schema, &json(r#"{"a": "x", "b": 1}"#)).is_err());
    assert_eq!(
        validate_arguments(&Json::Null, &json("{}")),
        Err("schema must be an object".to_string())
    );
}

#[test]
fn parsed_json_keeps_values() {
    let v = json(r#"{"b": [1, 2.5, null], "a": "x\ny"}"#);
    assert_eq!(v.get("a").unwrap().as_str(), Some("x\ny"));
    assert_eq!(
        v.get("b"),
        Some(&Json::Array(vec![
            Json::Number("1".to_string()),
            Json::Number("2.5".to_string()),
            Json::Null
        ]))
    );
    assert!(parse_json("{").is_err());
}

#[test]
fn cloned_calls_are_equal() {
    let c = call("create", r#"{"a": [1, null, "x"], "b": {"c": true}}"#);
    assert_eq!(c.clone(), c);
    assert_ne!(c.clone(), call("create", r#"{"a": [1, null, "y"], "b": {"c": true}}"#));
}
