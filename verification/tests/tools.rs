//! Tools: descriptions, results, registry, and the servers that bring tools.

use bytemaker::error::AgentError;
use bytemaker::json::Json;
use bytemaker::mcp::client::{call_arguments, extract_reply};
use bytemaker::mcp::tool::{McpTool, MockMcpClient};
use bytemaker::mcp::tools::{ConnectMcpTool, DisconnectMcpTool, ListMcpTool};
use bytemaker::mcp::{normalize_mcp_name, prefixed_tool_name, McpManager, McpToolDef};
use bytemaker::tools::glob_tool::{glob_in, run_glob, to_unix_path, GlobTool, MAX_RESULTS};
use bytemaker::tools::load_skill::LoadSkillTool;
use bytemaker::tools::{AgentKind, PermissionCheck, Tool, ToolRegistry, ToolResult};

fn json(text: &str) -> Json {
    Json { text: text.to_string() }
}

fn tool(name: &str) -> McpTool {
    McpTool::new(
        name.to_string(),
        "tool".to_string(),
        "test".to_string(),
        "test tool".to_string(),
        json("{}"),
    )
}

fn def(name: &str) -> McpToolDef {
    McpToolDef {
        name: name.to_string(),
        description: format!("does {}", name),
        input_schema: json(r#"{"type":"object"}"#),
    }
}

fn schema(t: &dyn Tool) -> serde_json::Value {
    serde_json::from_str(&t.input_schema().text).unwrap()
}

#[test]
fn test_glob_tool_name() {
    let tool = GlobTool;
    assert_eq!(tool.name(), "glob");
}

#[test]
fn test_glob_tool_description() {
    let tool = GlobTool;
    assert!(tool.description().contains("pattern matching"));
}

#[test]
fn test_glob_tool_schema() {
    let schema = schema(&GlobTool);
    assert_eq!(schema["type"], "object");
    assert!(schema["properties"].is_object());
    assert_eq!(schema["properties"]["pattern"]["type"], "string");

    let required = schema["required"].as_array().unwrap();
    assert_eq!(required.len(), 1);
    assert_eq!(required[0], "pattern");
}

#[test]
fn test_glob_permission_always_pass() {
    let tool = GlobTool;
    match tool.check_permission(&json(r#"{"pattern":"**/*"}"#)) {
        PermissionCheck::Pass => {}
        _ => panic!("Glob should always pass permission check"),
    }
}

#[test]
fn found_paths_are_listed_with_slashes_up_to_the_limit() {
    assert_eq!(to_unix_path(r"src\a.rs"), "src/a.rs");
    assert_eq!(glob_in(&[r"src\c.rs".to_string(), "a.rs".to_string()]), vec!["src/c.rs", "a.rs"]);
    assert_eq!(run_glob(&[]), "Error: no matches");
    assert_eq!(run_glob(&["a".to_string(), "b".to_string()]), "a\nb");
    let many: Vec<String> = (0..MAX_RESULTS + 7).map(|i| format!("f{}", i)).collect();
    assert_eq!(glob_in(&many).len(), MAX_RESULTS);
}

#[test]
fn glob_searches_where_the_input_says() {
    let tool = GlobTool;
    let here = tool.target(&json(r#"{"pattern":"*.rs"}"#), Ok("/w"));
    assert_eq!(here, Ok(("*.rs".to_string(), "/w".to_string())));
    let there = tool.target(&json(r#"{"pattern":"*.rs","path":"/p"}"#), Err("no cwd"));
    assert_eq!(there, Ok(("*.rs".to_string(), "/p".to_string())));
    assert_eq!(tool.target(&json("{}"), Err("no cwd")), Err("Error: no cwd".to_string()));
    assert_eq!(tool.full_pattern("/w", "*.rs"), "/w/*.rs");
}

#[test]
fn load_skill_needs_a_name() {
    let tool = LoadSkillTool;
    assert_eq!(tool.name(), "load_skill");
    assert!(tool.available_for_subagent());
    assert_eq!(tool.wanted(&json(r#"{"name":"pdf"}"#)), Ok("pdf".to_string()));
    assert_eq!(tool.wanted(&json("{}")), Err("Error: missing name".to_string()));
    assert_eq!(schema(&tool)["required"][0], "name");
    assert_eq!(tool.check_permission(&json("{}")), PermissionCheck::Pass);
}

#[test]
fn every_result_has_a_text_for_the_model() {
    assert_eq!(ToolResult::Output("out".into()).as_content(), "out");
    let missing = ToolResult::NotFound {
        name: "x".into(),
        available: vec!["a".to_string(), "b".to_string()],
    };
    assert_eq!(missing.as_content(), "Error: tool 'x' not found. Available tools: a, b");
    let rejected = ToolResult::Rejected { name: "x".into(), reason: "r".into() };
    assert_eq!(rejected.as_content(), "Error: Tool 'x' rejected: r");
    let denied = ToolResult::Denied { name: "x".into(), reason: "r".into() };
    assert_eq!(denied.as_content(), "Error: Tool 'x' denied: r");
    let failed = ToolResult::Error(AgentError::Timeout { seconds: 3 });
    assert_eq!(failed.as_content(), "Error: Operation timed out after 3s");
    assert!(ToolResult::Output("Error: path required".into()).was_executed());
    assert!(!denied.was_executed());
    assert!(matches!(failed.into_error(), Some(AgentError::Timeout { seconds: 3 })));
    assert!(ToolResult::Output("o".into()).into_error().is_none());
}

#[test]
fn normalize_strips_dots_and_slashes() {
    assert_eq!(normalize_mcp_name("my.server").ok().unwrap(), "my_server");
    assert_eq!(normalize_mcp_name("server/name").ok().unwrap(), "server_name");
    assert_eq!(normalize_mcp_name("a.b/c-d_e.f").ok().unwrap(), "a_b_c-d_e_f");
}

#[test]
fn normalize_preserves_underscores_and_dashes() {
    assert_eq!(normalize_mcp_name("my_server").ok().unwrap(), "my_server");
    assert_eq!(normalize_mcp_name("my-server").ok().unwrap(), "my-server");
    assert_eq!(normalize_mcp_name("my_server-name").ok().unwrap(), "my_server-name");
}

#[test]
fn normalize_rejects_empty() {
    assert!(normalize_mcp_name("").is_err());
    assert!(normalize_mcp_name("...").is_err());
}

#[test]
fn prefixed_name_format() {
    assert_eq!(prefixed_tool_name("docs", "search").ok().unwrap(), "mcp__docs__search");
    assert_eq!(
        prefixed_tool_name("my-server", "my-tool").ok().unwrap(),
        "mcp__my-server__my-tool"
    );
}

#[test]
fn prefixed_name_exceeds_64_chars() {
    let long_name = "a".repeat(100);
    let result = prefixed_tool_name(&long_name, "tool");
    assert!(result.is_err());
    if let Err(e) = result {
        assert!(e.to_string().contains("exceeds 64 chars"));
    }
}

#[test]
fn mcp_tools_appear_in_tool_definitions() {
    let mut registry = ToolRegistry::new();
    let mcp_tool = McpTool::new(
        "mcp__test__search".to_string(),
        "search".to_string(),
        "test".to_string(),
        "Search the test server".to_string(),
        json(r#"{"type":"object","properties":{"query":{"type":"string"}}}"#),
    );
    registry.register_dynamic(Box::new(mcp_tool));

    let lead_defs = registry.definitions_for(AgentKind::Lead);
    assert!(lead_defs.iter().any(|d| d.name == "mcp__test__search"));
    let subagent_defs = registry.definitions_for(AgentKind::Subagent);
    assert!(subagent_defs.iter().any(|d| d.name == "mcp__test__search"));
    let teammate_defs = registry.definitions_for(AgentKind::Teammate);
    assert!(teammate_defs.iter().any(|d| d.name == "mcp__test__search"));
}

#[test]
fn mcp_tool_name_returns_prefixed_name() {
    assert_eq!(tool("mcp__test__tool").name(), "mcp__test__tool");
}

#[test]
fn mcp_tool_requires_approval() {
    let check = tool("mcp__test__tool").check_permission(&json("{}"));
    assert!(matches!(check, PermissionCheck::NeedsApproval(_)));
}

#[test]
fn mcp_tool_available_for_all_kinds() {
    let tool = tool("mcp__test__tool");
    assert!(tool.available_for(AgentKind::Lead));
    assert!(tool.available_for(AgentKind::Subagent));
    assert!(tool.available_for(AgentKind::Teammate));
}

#[test]
fn connect_mcp_tool_name() {
    assert_eq!(ConnectMcpTool.name(), "connect_mcp");
}

#[test]
fn disconnect_mcp_tool_name() {
    assert_eq!(DisconnectMcpTool.name(), "disconnect_mcp");
}

#[test]
fn list_mcp_tool_name() {
    assert_eq!(ListMcpTool.name(), "list_mcp");
}

#[test]
fn connect_mcp_lead_only() {
    let tool = ConnectMcpTool;
    assert!(tool.available_for(AgentKind::Lead));
    assert!(!tool.available_for(AgentKind::Subagent));
    assert!(!tool.available_for(AgentKind::Teammate));
}

#[test]
fn disconnect_mcp_lead_only() {
    let tool = DisconnectMcpTool;
    assert!(tool.available_for(AgentKind::Lead));
    assert!(!tool.available_for(AgentKind::Subagent));
    assert!(!tool.available_for(AgentKind::Teammate));
}

#[test]
fn list_mcp_all_kinds() {
    let tool = ListMcpTool;
    assert!(tool.available_for(AgentKind::Lead));
    assert!(tool.available_for(AgentKind::Subagent));
    assert!(tool.available_for(AgentKind::Teammate));
}

#[test]
fn tool_def_creation() {
    let tool = McpToolDef {
        name: "test_tool".to_string(),
        description: "A test tool".to_string(),
        input_schema: json(r#"{"type":"object"}"#),
    };
    assert_eq!(tool.name, "test_tool");
    assert_eq!(tool.description, "A test tool");
    let v: serde_json::Value = serde_json::from_str(&tool.input_schema.text).unwrap();
    assert!(v.is_object());
}

#[test]
fn schemas_of_server_tools_are_json() {
    assert_eq!(schema(&ConnectMcpTool)["required"][1], "command");
    assert_eq!(schema(&DisconnectMcpTool)["required"][0], "name");
    assert!(schema(&ListMcpTool)["properties"].is_object());
    assert!(matches!(
        ConnectMcpTool.check_permission(&json("{}")),
        PermissionCheck::NeedsApproval(_)
    ));
    assert!(matches!(
        DisconnectMcpTool.check_permission(&json("{}")),
        PermissionCheck::NeedsApproval(_)
    ));
    assert_eq!(ListMcpTool.check_permission(&json("{}")), PermissionCheck::Pass);
}

#[test]
fn connecting_registers_tools_and_disconnecting_frees_their_names() {
    let mut manager = McpManager::new();
    assert_eq!(manager.system_prompt_suffix(), "");
    let (tools, names) = manager.connect("docs", vec![def("search"), def("get.page")]);
    assert_eq!(names.ok().unwrap(), vec!["mcp__docs__search", "mcp__docs__get_page"]);
    assert_eq!(tools.len(), 2);
    assert_eq!(tools[1].raw_name, "get.page");
    assert_eq!(tools[1].description, "does get.page");
    assert_eq!(
        manager.system_prompt_suffix(),
        "## Connected MCP Servers\n- docs: 2 tool(s)"
    );
    assert_eq!(
        ListMcpTool.execute(&manager),
        "Connected MCP servers:\n- docs (2 tool(s))\n  - search\n  - get.page"
    );
    let (gone, done) = manager.disconnect("docs");
    assert!(done.is_ok());
    assert_eq!(gone, vec!["mcp__docs__search", "mcp__docs__get_page"]);
    assert!(manager.list().is_empty());
    let (_, again) = manager.connect("docs", vec![def("search")]);
    assert!(again.is_ok());
    assert_eq!(manager.shutdown_all(), vec!["docs"]);
    assert!(manager.list().is_empty());
}

#[test]
fn names_that_collide_or_vanish_end_the_registration() {
    let mut manager = McpManager::new();
    let (tools, outcome) = manager.connect("s", vec![def("a.b"), def("a/b")]);
    assert_eq!(tools.len(), 1);
    let said = outcome.err().unwrap().to_string();
    assert_eq!(
        said,
        "Validation error: MCP tool name collision: 'mcp__s__a_b' maps to both s/a.b and s/a/b"
    );
    assert!(manager.list().is_empty());
    let (tools, outcome) = manager.connect("t", vec![def("...")]);
    assert!(tools.is_empty());
    assert_eq!(
        outcome.err().unwrap().to_string(),
        "Validation error: MCP name cannot normalize to empty"
    );
    let (_, gone) = manager.disconnect("nobody");
    assert_eq!(gone.err().unwrap().to_string(), "MCP server 'nobody' not found");
}

#[test]
fn requests_to_connect_name_a_server_and_a_command() {
    let ok = ConnectMcpTool.request(&json(
        r#"{"name":"docs","command":"npx","args":["-y",3,"pkg"]}"#,
    ));
    assert_eq!(
        ok,
        Ok(("docs".to_string(), "npx".to_string(), vec!["-y".to_string(), "pkg".to_string()]))
    );
    let bad = ConnectMcpTool.request(&json(r#"{"name":"docs"}"#));
    assert_eq!(bad, Err("Error: 'name' and 'command' are required parameters".to_string()));
    assert_eq!(
        ConnectMcpTool.answer("docs", Ok(vec!["a".to_string(), "b".to_string()])),
        "Connected to MCP server 'docs'. Discovered 2 tool(s):\na, b"
    );
    assert_eq!(
        ConnectMcpTool.answer("docs", Ok(vec![])),
        "Connected to MCP server 'docs'. No tools discovered."
    );
    assert_eq!(
        ConnectMcpTool.answer("docs", Err(AgentError::Other("no".into()))),
        "Error connecting to MCP server 'docs': no"
    );
    assert_eq!(
        DisconnectMcpTool.request(&json("{}")),
        Err("Error: 'name' is a required parameter".to_string())
    );
    assert_eq!(DisconnectMcpTool.request(&json(r#"{"name":"d"}"#)), Ok("d".to_string()));
    assert_eq!(DisconnectMcpTool.answer("d", Ok(())), "Disconnected from MCP server 'd'");
    assert_eq!(
        DisconnectMcpTool.answer("d", Err(AgentError::Other("no".into()))),
        "Error disconnecting from MCP server 'd': no"
    );
    assert_eq!(
        ListMcpTool.execute(&McpManager::new()),
        "No MCP servers connected. Use connect_mcp to connect one."
    );
}

#[test]
fn replies_of_servers_become_text() {
    let parts = [Some("a".to_string()), None, Some("b".to_string())];
    assert_eq!(extract_reply(&parts, "shown"), "a\nb");
    assert_eq!(extract_reply(&[None], "shown"), "shown");
    let members = call_arguments(&json(r#"{"q":"x","n":1}"#)).ok().unwrap();
    assert_eq!(
        members,
        vec![
            ("q".to_string(), "\"x\"".to_string()),
            ("n".to_string(), "1".to_string()),
        ]
    );
    assert_eq!(
        call_arguments(&json("[]")).err().unwrap().to_string(),
        "Tool arguments must be a JSON object"
    );
    let client = MockMcpClient::new();
    let reply = client.call_tool("search", &json("{}"));
    assert_eq!(tool("t").execute(reply), "mock result");
    assert_eq!(
        tool("t").execute(Err(AgentError::Network("down".into()))),
        "MCP error: Network error: down"
    );
}

#[test]
fn a_registered_tool_takes_the_place_of_its_namesake() {
    let mut registry = ToolRegistry::new();
    registry.register_dynamic(Box::new(GlobTool));
    registry.register_dynamic(Box::new(tool("glob")));
    registry.register_dynamic(Box::new(ConnectMcpTool));
    let defs = registry.definitions_for(AgentKind::Teammate);
    assert_eq!(defs.len(), 1);
    assert_eq!(defs[0].description, "test tool");
    assert_eq!(registry.definitions_for(AgentKind::Lead).len(), 2);
    assert!(matches!(
        registry.check_permission("glob", &json("{}")),
        Some(PermissionCheck::NeedsApproval(_))
    ));
    assert!(registry.check_permission("other", &json("{}")).is_none());
    registry.unregister("glob");
    assert!(registry.check_permission("glob", &json("{}")).is_none());
    assert_eq!(registry.definitions_for(AgentKind::Lead).len(), 1);
}
