//! The tools by which the model connects, disconnects and lists servers.

use vstd::prelude::*;

use crate::error;
use crate::error::AgentError;
use crate::json;
use crate::json::{Json, JsonNode};
use crate::mcp;
use crate::mcp::McpManager;
use crate::text;
use crate::tools::{AgentKind, PermissionCheck, PermissionView, Tool, ToolDefView};

verus! {

pub const CONNECT_NAME: &'static str = "connect_mcp";

pub const CONNECT_DESCRIPTION: &'static str = "Connect to an MCP server and discover its tools. Discovered tools become available as mcp__{server}__{tool}.";

pub const CONNECT_SCHEMA: &'static str = r#"{"type":"object","properties":{"name":{"type":"string","description":"Server name (used for tool namespacing)"},"command":{"type":"string","description":"Command to start the MCP server (e.g., 'npx')"},"args":{"type":"array","items":{"type":"string"},"description":"Arguments to the command (e.g., ['-y', '@modelcontextprotocol/server-docs'])"}},"required":["name","command"]}"#;

pub const CONNECT_APPROVAL: &'static str = "Connecting to an external MCP server will spawn a new process";

/// The strings among the items of a list of JSON texts.
pub open spec fn strings_in(items: Seq<Seq<char>>) -> Seq<Seq<char>>
    decreases items.len(),
{
    if items.len() == 0 {
        Seq::empty()
    } else {
        match json::json_value(items.last()) {
            Ok(json::JsonView::Str(s)) => strings_in(items.drop_last()).push(s),
            _ => strings_in(items.drop_last()),
        }
    }
}

/// The arguments that an input names for the server's command.
pub open spec fn args_of(input: json::JsonView) -> Seq<Seq<char>> {
    match input.child("args"@) {
        Some(json::JsonView::Array(items)) => strings_in(items),
        _ => Seq::empty(),
    }
}

/// The server that an input names: its name, its command and the command's arguments.
pub open spec fn connect_request(input: Seq<char>) -> Option<
    (Seq<char>, Seq<char>, Seq<Seq<char>>),
> {
    match json::json_value(input) {
        Ok(v) => {
            let name = v.str_or_empty("name"@);
            let command = v.str_or_empty("command"@);
            if name.len() == 0 || command.len() == 0 {
                None
            } else {
                Some((name, command, args_of(v)))
            }
        },
        Err(_) => None,
    }
}

/// The answer to a connection.
pub open spec fn connect_answer(
    name: Seq<char>,
    outcome: Result<Seq<Seq<char>>, error::ErrorView>,
) -> Seq<char> {
    match outcome {
        Ok(tools) => if tools.len() == 0 {
            "Connected to MCP server '"@ + name + "'. No tools discovered."@
        } else {
            "Connected to MCP server '"@ + name + "'. Discovered "@ + text::decimal(tools.len())
                + " tool(s):\n"@ + text::joined(tools, ", "@)
        },
        Err(e) => "Error connecting to MCP server '"@ + name + "': "@ + e.shown(),
    }
}

fn collect_strings(items: &[String]) -> (r: Vec<String>)
    ensures
        text::views(r@) == strings_in(text::views(items@)),
{
    let ghost all = text::views(items@);
    let mut out: Vec<String> = Vec::new();
    let mut i: usize = 0;
    assert(text::views(out@) =~= strings_in(all.take(0)));
    while i < items.len()
        invariant
            i <= items@.len(),
            all == text::views(items@),
            text::views(out@) == strings_in(all.take(i as int)),
        decreases items@.len() - i,
    {
        assert(all.take(i + 1).drop_last() =~= all.take(i as int));
        assert(all.take(i + 1).last() == items@[i as int]@);
        let ghost before = text::views(out@);
        if let Ok(JsonNode::Str(s)) = json::parse(items[i].as_str()) {
            out.push(s);
            assert(text::views(out@) =~= before.push(s@));
        }
        i += 1;
    }
    assert(all.take(all.len() as int) =~= all);
    out
}

/// The tool that connects a server. Only the lead has it.
pub struct ConnectMcpTool;

impl ConnectMcpTool {
    /// The server that the input names, or the answer to an input that names none.
    pub fn request(&self, input: &Json) -> (r: Result<(String, String, Vec<String>), String>)
        ensures
            match connect_request(input@) {
                Some((name, command, args)) => {
                    &&& r is Ok
                    &&& r->Ok_0.0@ == name
                    &&& r->Ok_0.1@ == command
                    &&& text::views(r->Ok_0.2@) == args
                },
                None => r is Err && r->Err_0@
                    == "Error: 'name' and 'command' are required parameters"@,
            },
    {
        let node = match json::parse(input.text.as_str()) {
            Ok(node) => node,
            Err(_) => {
                return Err("Error: 'name' and 'command' are required parameters".to_string());
            },
        };
        let name = node.str_or_empty("name");
        let command = node.str_or_empty("command");
        if name.as_str().is_empty() || command.as_str().is_empty() {
            return Err("Error: 'name' and 'command' are required parameters".to_string());
        }
        let args = match node.child("args") {
            Some(JsonNode::Array(items)) => collect_strings(&items),
            _ => Vec::new(),
        };
        assert(text::views(args@) =~= args_of(node@));
        Ok((name, command, args))
    }

    /// The answer to a connection: the names of the server's tools, or what went wrong.
    pub fn answer(&self, name: &str, outcome: Result<Vec<String>, AgentError>) -> (r: String)
        ensures
            r@ == connect_answer(
                name@,
                match outcome {
                    Ok(tools) => Ok(text::views(tools@)),
                    Err(e) => Err(e@),
                },
            ),
    {
        match outcome {
            Ok(tools) => {
                assert(text::views(tools@).len() == tools@.len());
                if tools.len() == 0 {
                    "Connected to MCP server '".to_string().concat(name).concat(
                        "'. No tools discovered.",
                    )
                } else {
                    "Connected to MCP server '".to_string().concat(name).concat(
                        "'. Discovered ",
                    ).concat(text::number_text(tools.len() as u64).as_str()).concat(
                        " tool(s):\n",
                    ).concat(text::join(&tools, ", ").as_str())
                }
            },
            Err(e) => "Error connecting to MCP server '".to_string().concat(name).concat(
                "': ",
            ).concat(e.to_string().as_str()),
        }
    }
}

impl Tool for ConnectMcpTool {
    open spec fn facts(&self) -> ToolDefView {
        ToolDefView {
            name: CONNECT_NAME@,
            description: CONNECT_DESCRIPTION@,
            input_schema: CONNECT_SCHEMA@,
        }
    }

    open spec fn permission(&self, input: Seq<char>) -> PermissionView {
        PermissionView::NeedsApproval(CONNECT_APPROVAL@)
    }

    open spec fn offered(&self, kind: AgentKind) -> bool {
        kind == AgentKind::Lead
    }

    fn name(&self) -> (r: &str) {
        CONNECT_NAME
    }

    fn description(&self) -> (r: &str) {
        CONNECT_DESCRIPTION
    }

    fn input_schema(&self) -> (r: Json) {
        Json { text: CONNECT_SCHEMA.to_string() }
    }

    fn check_permission(&self, input: &Json) -> (r: PermissionCheck) {
        PermissionCheck::NeedsApproval(CONNECT_APPROVAL)
    }

    fn available_for(&self, kind: AgentKind) -> (r: bool) {
        kind == AgentKind::Lead
    }
}

pub const DISCONNECT_NAME: &'static str = "disconnect_mcp";

pub const DISCONNECT_DESCRIPTION: &'static str = "Disconnect from an MCP server and remove its tools from the registry.";

pub const DISCONNECT_SCHEMA: &'static str = r#"{"type":"object","properties":{"name":{"type":"string","description":"Server name to disconnect"}},"required":["name"]}"#;

pub const DISCONNECT_APPROVAL: &'static str = "Disconnecting from an MCP server will terminate its process";

/// The tool that disconnects a server. Only the lead has it.
pub struct DisconnectMcpTool;

impl DisconnectMcpTool {
    /// The name of the server that the input names, or the answer to an input that names
    /// none.
    pub fn request(&self, input: &Json) -> (r: Result<String, String>)
        ensures
            match json::text_str_member(input@, "name"@) {
                Some(name) => if name.len() > 0 {
                    r is Ok && r->Ok_0@ == name
                } else {
                    r is Err && r->Err_0@ == "Error: 'name' is a required parameter"@
                },
                None => r is Err && r->Err_0@ == "Error: 'name' is a required parameter"@,
            },
    {
        match input.str_member("name") {
            Some(name) => if name.as_str().is_empty() {
                Err("Error: 'name' is a required parameter".to_string())
            } else {
                Ok(name)
            },
            None => Err("Error: 'name' is a required parameter".to_string()),
        }
    }

    /// The answer to a disconnection.
    pub fn answer(&self, name: &str, outcome: Result<(), AgentError>) -> (r: String)
        ensures
            r@ == (match outcome {
                Ok(_) => "Disconnected from MCP server '"@ + name@ + "'"@,
                Err(e) => "Error disconnecting from MCP server '"@ + name@ + "': "@ + e@.shown(),
            }),
    {
        match outcome {
            Ok(_) => "Disconnected from MCP server '".to_string().concat(name).concat("'"),
            Err(e) => "Error disconnecting from MCP server '".to_string().concat(name).concat(
                "': ",
            ).concat(e.to_string().as_str()),
        }
    }
}

impl Tool for DisconnectMcpTool {
    open spec fn facts(&self) -> ToolDefView {
        ToolDefView {
            name: DISCONNECT_NAME@,
            description: DISCONNECT_DESCRIPTION@,
            input_schema: DISCONNECT_SCHEMA@,
        }
    }

    open spec fn permission(&self, input: Seq<char>) -> PermissionView {
        PermissionView::NeedsApproval(DISCONNECT_APPROVAL@)
    }

    open spec fn offered(&self, kind: AgentKind) -> bool {
        kind == AgentKind::Lead
    }

    fn name(&self) -> (r: &str) {
        DISCONNECT_NAME
    }

    fn description(&self) -> (r: &str) {
        DISCONNECT_DESCRIPTION
    }

    fn input_schema(&self) -> (r: Json) {
        Json { text: DISCONNECT_SCHEMA.to_string() }
    }

    fn check_permission(&self, input: &Json) -> (r: PermissionCheck) {
        PermissionCheck::NeedsApproval(DISCONNECT_APPROVAL)
    }

    fn available_for(&self, kind: AgentKind) -> (r: bool) {
        kind == AgentKind::Lead
    }
}

pub const LIST_NAME: &'static str = "list_mcp";

pub const LIST_DESCRIPTION: &'static str = "List all connected MCP servers and their discovered tools.";

pub const LIST_SCHEMA: &'static str = r#"{"type":"object","properties":{}}"#;

/// The lines on one server: its name, and a line for each tool.
pub open spec fn server_lines(i: mcp::InfoView) -> Seq<Seq<char>> {
    seq!["- "@ + i.name + " ("@ + text::decimal(i.tools.len()) + " tool(s))"@]
        + i.tools.map_values(|t: Seq<char>| "  - "@ + t)
}

/// The lines on all servers.
pub open spec fn listing_lines(servers: Seq<mcp::InfoView>) -> Seq<Seq<char>>
    decreases servers.len(),
{
    if servers.len() == 0 {
        seq!["Connected MCP servers:"@]
    } else {
        listing_lines(servers.drop_last()) + server_lines(servers.last())
    }
}

/// The listing of servers.
pub open spec fn listing(servers: Seq<mcp::InfoView>) -> Seq<char> {
    if servers.len() == 0 {
        "No MCP servers connected. Use connect_mcp to connect one."@
    } else {
        text::joined(listing_lines(servers), "\n"@)
    }
}

/// The tool that lists the servers. Every agent has it.
pub struct ListMcpTool;

impl ListMcpTool {
    /// The servers and their tools.
    pub fn execute(&self, manager: &McpManager) -> (r: String)
        ensures
            r@ == listing(
                manager@.connections.map_values(|c: mcp::ConnectionView| mcp::info_of(c)),
            ),
    {
        let servers = manager.list();
        let ghost is = mcp::infos(servers@);
        if servers.len() == 0 {
            return "No MCP servers connected. Use connect_mcp to connect one.".to_string();
        }
        let mut lines: Vec<String> = Vec::new();
        lines.push("Connected MCP servers:".to_string());
        let mut i: usize = 0;
        assert(text::views(lines@) =~= listing_lines(is.take(0)));
        while i < servers.len()
            invariant
                i <= servers@.len(),
                is == mcp::infos(servers@),
                text::views(lines@) == listing_lines(is.take(i as int)),
            decreases servers@.len() - i,
        {
            let server = &servers[i];
            let ghost written = text::views(lines@);
            let ghost view = server@;
            let ghost want = server_lines(view);
            proof {
                assert(is.take(i + 1).drop_last() =~= is.take(i as int));
                assert(is.take(i + 1).last() == view);
            }
            let head = "- ".to_string().concat(server.name.as_str()).concat(" (").concat(
                text::number_text(server.tools.len() as u64).as_str(),
            ).concat(" tool(s))");
            lines.push(head);
            assert(text::views(lines@) =~= written + want.take(1));
            let mut k: usize = 0;
            while k < server.tools.len()
                invariant
                    k <= server.tools@.len(),
                    view == server@,
                    want == server_lines(view),
                    text::views(lines@) == written + want.take(k + 1),
                decreases server.tools@.len() - k,
            {
                let ghost before = text::views(lines@);
                let line = "  - ".to_string().concat(server.tools[k].as_str());
                lines.push(line);
                assert(text::views(lines@) =~= before.push(line@));
                assert(want[k + 1] == line@);
                assert(text::views(lines@) =~= written + want.take(k + 2));
                k += 1;
            }
            assert(want.take(want.len() as int) =~= want);
            i += 1;
        }
        assert(is.take(is.len() as int) =~= is);
        text::join(&lines, "\n")
    }
}

impl Tool for ListMcpTool {
    open spec fn facts(&self) -> ToolDefView {
        ToolDefView {
            name: LIST_NAME@,
            description: LIST_DESCRIPTION@,
            input_schema: LIST_SCHEMA@,
        }
    }

    open spec fn permission(&self, input: Seq<char>) -> PermissionView {
        PermissionView::Pass
    }

    open spec fn offered(&self, kind: AgentKind) -> bool {
        true
    }

    fn name(&self) -> (r: &str) {
        LIST_NAME
    }

    fn description(&self) -> (r: &str) {
        LIST_DESCRIPTION
    }

    fn input_schema(&self) -> (r: Json) {
        Json { text: LIST_SCHEMA.to_string() }
    }

    fn check_permission(&self, input: &Json) -> (r: PermissionCheck) {
        PermissionCheck::Pass
    }

    fn available_for(&self, kind: AgentKind) -> (r: bool) {
        true
    }
}

} // verus!
