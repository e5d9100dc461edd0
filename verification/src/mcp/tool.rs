//! Tools that servers bring.

use vstd::prelude::*;

use crate::error::AgentError;
use crate::json::Json;
use crate::tools::{AgentKind, PermissionCheck, PermissionView, Tool, ToolDefView};

verus! {

/// A client that answers every call alike, for tests.
pub struct MockMcpClient {}

impl MockMcpClient {
    pub fn new() -> (r: Self) {
        MockMcpClient {  }
    }

    /// The answer to a call.
    pub fn call_tool(&self, name: &str, args: &Json) -> (r: Result<String, AgentError>)
        ensures
            r is Ok,
            r->Ok_0@ == "mock result"@,
    {
        Ok("mock result".to_string())
    }
}

/// Why a call of such a tool is put to the user.
pub const MCP_APPROVAL: &'static str = "External MCP tool call requires confirmation";

/// A tool of a server, as the agents see it.
pub struct McpTool {
    /// The name under which it is registered.
    pub prefixed_name: String,
    /// The name that its server gave it.
    pub raw_name: String,
    pub server_name: String,
    pub description: String,
    pub input_schema: Json,
}

/// The mathematical content of an [`McpTool`].
#[verifier::ext_equal]
pub struct McpToolView {
    pub prefixed_name: Seq<char>,
    pub raw_name: Seq<char>,
    pub server_name: Seq<char>,
    pub description: Seq<char>,
    pub input_schema: Seq<char>,
}

impl View for McpTool {
    type V = McpToolView;

    open spec fn view(&self) -> McpToolView {
        McpToolView {
            prefixed_name: self.prefixed_name@,
            raw_name: self.raw_name@,
            server_name: self.server_name@,
            description: self.description@,
            input_schema: self.input_schema@,
        }
    }
}

/// The contents of a list of tools.
pub open spec fn tool_views(v: Seq<McpTool>) -> Seq<McpToolView> {
    v.map_values(|t: McpTool| t@)
}

impl McpTool {
    pub fn new(
        prefixed_name: String,
        raw_name: String,
        server_name: String,
        description: String,
        input_schema: Json,
    ) -> (r: Self)
        ensures
            r@ == (McpToolView {
                prefixed_name: prefixed_name@,
                raw_name: raw_name@,
                server_name: server_name@,
                description: description@,
                input_schema: input_schema@,
            }),
    {
        McpTool { prefixed_name, raw_name, server_name, description, input_schema }
    }

    /// The text that the model gets for a server's reply.
    pub fn execute(&self, reply: Result<String, AgentError>) -> (r: String)
        ensures
            r@ == (match reply {
                Ok(text) => text@,
                Err(e) => "MCP error: "@ + e@.shown(),
            }),
    {
        match reply {
            Ok(text) => text,
            Err(e) => "MCP error: ".to_string().concat(e.to_string().as_str()),
        }
    }
}

impl Tool for McpTool {
    open spec fn facts(&self) -> ToolDefView {
        ToolDefView {
            name: self.prefixed_name@,
            description: self.description@,
            input_schema: self.input_schema@,
        }
    }

    open spec fn permission(&self, input: Seq<char>) -> PermissionView {
        PermissionView::NeedsApproval(MCP_APPROVAL@)
    }

    open spec fn offered(&self, kind: AgentKind) -> bool {
        true
    }

    fn name(&self) -> (r: &str) {
        self.prefixed_name.as_str()
    }

    fn description(&self) -> (r: &str) {
        self.description.as_str()
    }

    fn input_schema(&self) -> (r: Json) {
        self.input_schema.clone()
    }

    fn check_permission(&self, input: &Json) -> (r: PermissionCheck) {
        PermissionCheck::NeedsApproval(MCP_APPROVAL)
    }

    fn available_for(&self, kind: AgentKind) -> (r: bool) {
        true
    }
}

} // verus!
