//! What holds of the tools: who has them, and which of them ask.

use vstd::prelude::*;

use crate::background::tools::{TaskOutputTool, TaskStopTool};
use crate::mcp::tool::McpTool;
use crate::mcp::tools::{ConnectMcpTool, DisconnectMcpTool, ListMcpTool};
use crate::team::plan::{SpawnTeammateTool, SubmitPlanTool};
use crate::tools::glob_tool::GlobTool;
use crate::tools::load_skill::LoadSkillTool;
use crate::tools::{AgentKind, PermissionView, Tool};

verus! {

/// The law of tools for some: only the lead brings teammates into the team, connects servers
/// and disconnects them, and only a teammate submits a plan; every agent has the others.
pub proof fn law_who_has_which_tool(kind: AgentKind, tool: McpTool)
    ensures
        SpawnTeammateTool.offered(kind) <==> kind == AgentKind::Lead,
        ConnectMcpTool.offered(kind) <==> kind == AgentKind::Lead,
        DisconnectMcpTool.offered(kind) <==> kind == AgentKind::Lead,
        SubmitPlanTool.offered(kind) <==> kind == AgentKind::Teammate,
        ListMcpTool.offered(kind),
        TaskOutputTool.offered(kind),
        TaskStopTool.offered(kind),
        GlobTool.offered(kind),
        LoadSkillTool.offered(kind),
        tool.offered(kind),
{
}

/// The law of tools that ask: to connect a server, to disconnect one and to use the tool of
/// one needs the user's approval, whatever the input; the others do not ask.
pub proof fn law_which_tools_ask(input: Seq<char>, tool: McpTool)
    ensures
        ConnectMcpTool.permission(input) is NeedsApproval,
        DisconnectMcpTool.permission(input) is NeedsApproval,
        tool.permission(input) is NeedsApproval,
        SpawnTeammateTool.permission(input) == PermissionView::Pass,
        SubmitPlanTool.permission(input) == PermissionView::Pass,
        ListMcpTool.permission(input) == PermissionView::Pass,
        TaskOutputTool.permission(input) == PermissionView::Pass,
        TaskStopTool.permission(input) == PermissionView::Pass,
        GlobTool.permission(input) == PermissionView::Pass,
        LoadSkillTool.permission(input) == PermissionView::Pass,
{
}

/// The law of a server's tools: one is offered under its registered name, with its own
/// description and input.
pub proof fn law_server_tools_are_offered_as_they_are(tool: McpTool)
    ensures
        tool.facts().name == tool.prefixed_name@,
        tool.facts().description == tool.description@,
        tool.facts().input_schema == tool.input_schema@,
{
}

} // verus!
